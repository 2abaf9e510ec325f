//! A component that shows markup as it is.
use vstd::prelude::*;

verus! {

/// The properties of the component: the markup to show.
#[derive(Debug, Clone, PartialEq, Eq)]
pub struct RawHTMLProps {
    pub inner_html: String,
}

/// A component that shows the markup of its properties.
#[derive(Debug, Clone, PartialEq, Eq)]
pub struct RawHTML {
    props: RawHTMLProps,
}

impl View for RawHTML {
    type V = Seq<char>;

    closed spec fn view(&self) -> Seq<char> {
        self.props.inner_html@
    }
}

impl RawHTML {
    /// A component that shows `props.inner_html`.
    pub fn create(props: RawHTMLProps) -> (res: RawHTML)
        ensures
            res@ == props.inner_html@,
    {
        RawHTML { props }
    }

    /// Whether the component is to be shown anew after a message: always.
    pub fn update(&mut self) -> (render: bool)
        ensures
            render,
            final(self)@ == old(self)@,
    {
        true
    }

    /// Takes new properties, and says whether the component is to be shown
    /// anew: where the markup has changed.
    pub fn change(&mut self, props: RawHTMLProps) -> (render: bool)
        ensures
            final(self)@ == props.inner_html@,
            render == (old(self)@ != props.inner_html@),
    {
        if self.props.inner_html != props.inner_html {
            self.props = props;
            true
        } else {
            false
        }
    }

    /// The markup that the component shows.
    pub fn inner_html(&self) -> (res: &str)
        ensures
            res@ == self@,
    {
        self.props.inner_html.as_str()
    }
}

} // verus!
