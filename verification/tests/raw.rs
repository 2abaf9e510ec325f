use cianticblog::raw::{RawHTML, RawHTMLProps};

fn props(markup: &str) -> RawHTMLProps {
    RawHTMLProps {
        inner_html: markup.to_string(),
    }
}

#[test]
fn new_properties_are_taken_and_reported() {
    let mut component = RawHTML::create(props("<b>a</b>"));
    assert_eq!(component.inner_html(), "<b>a</b>");
    assert!(!component.change(props("<b>a</b>")));
    assert_eq!(component.inner_html(), "<b>a</b>");
    assert!(component.change(props("<i>b</i>")));
    assert_eq!(component.inner_html(), "<i>b</i>");
    assert!(component.update());
    assert_eq!(component.inner_html(), "<i>b</i>");
}
