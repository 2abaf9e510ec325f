use cianticblog::markdown::metadata::{first_title, first_title_rest};

#[test]
fn compile_test_first_title_rest() {
    assert_eq!(first_title_rest(""), ("", ""));
    assert_eq!(
        first_title_rest("\n this is not the title"),
        ("", " this is not the title")
    );
    assert_eq!(first_title_rest("sole line"), ("sole line", ""));

    assert_eq!(
        first_title_rest("the title \n second line"),
        ("the title", " second line")
    );

    // Trim the start of second line from new lines:
    assert_eq!(
        first_title_rest("the title \n\n\r\n second line"),
        ("the title", " second line")
    );

    // But it doesn't affect the third line
    assert_eq!(
        first_title_rest("## the title \r\n second line \r\n third line"),
        ("the title", " second line \r\n third line")
    );
}

#[test]
fn metadata_test_first_title_rest() {
    assert_eq!(first_title_rest(""), ("", ""));
    assert_eq!(
        first_title_rest("\n this is not the title"),
        ("", " this is not the title")
    );
    assert_eq!(first_title_rest("sole line"), ("sole line", ""));
    assert_eq!(
        first_title_rest("the title \n second line"),
        ("the title", " second line")
    );
    assert_eq!(
        first_title_rest("# the title \r\n second line"),
        ("the title", " second line")
    );
    assert_eq!(
        first_title_rest("## the title \r\n second line \r\n third line"),
        ("the title", " second line \r\n third line")
    );
}

#[test]
fn test_first_title() {
    assert_eq!(first_title("\n this is not the title"), "");
    assert_eq!(first_title("sole line"), "sole line");
    assert_eq!(first_title("the title \n second line"), "the title");
    assert_eq!(first_title("# the title \r\n second line"), "the title");
    assert_eq!(first_title("## the title \r\n second line"), "the title");
}

#[test]
fn a_leading_blank_line_gives_an_empty_title() {
    assert_eq!(first_title_rest("\nX"), ("", "X"));
    assert_eq!(first_title("\nX"), "");
}

#[test]
fn markers_and_white_space_leave_the_title_only() {
    assert_eq!(first_title_rest("## T \r\n body"), ("T", " body"));
    assert_eq!(first_title_rest("###\u{a0}T\u{3000}\t\nbody"), ("T", "body"));
    assert_eq!(first_title_rest("# # T\nbody"), ("# T", "body"));
    assert_eq!(first_title_rest(" # T\nbody"), ("# T", "body"));
}

#[test]
fn a_line_of_white_space_gives_an_empty_title_and_is_consumed() {
    assert_eq!(first_title_rest("#  \t \r\nnext\n"), ("", "next\n"));
    assert_eq!(first_title_rest("   "), ("", ""));
    assert_eq!(first_title_rest("\n\n\n"), ("", ""));
    assert_eq!(first_title_rest("\r\nnot skipped"), ("", "not skipped"));
}

#[test]
fn the_title_alone_is_the_title_of_the_pair() {
    for text in [
        "",
        "sole line",
        "# a\nb",
        "\u{2003}## x y \u{2003}\r\n\r\nz",
        "t\u{e9}l\u{e9}\n\u{1F600}",
    ] {
        assert_eq!(first_title(text), first_title_rest(text).0);
    }
}

#[test]
fn text_beyond_ascii_is_cut_between_characters() {
    assert_eq!(
        first_title_rest("# \u{1F600} caf\u{e9} \n\r\u{e9}t\u{e9}"),
        ("\u{1F600} caf\u{e9}", "\u{e9}t\u{e9}")
    );
}
