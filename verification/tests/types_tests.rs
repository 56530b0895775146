use creb::parser::CliArgs;
use creb::ui::UserAction;

#[test]
fn cli_args_carry_the_invocation() {
    let args = CliArgs {
        filename: "book.epub".to_string(),
        chapter: Some(3),
        verbose: false,
    };
    assert_eq!(args.filename, "book.epub");
    assert_eq!(args.chapter, Some(3));
    assert!(!args.verbose);
}

#[test]
fn user_actions_are_distinct() {
    let all = [
        UserAction::Quit,
        UserAction::NextChapter,
        UserAction::PreviousChapter,
        UserAction::ScrollDown,
        UserAction::ScrollUp,
        UserAction::PageDown,
        UserAction::PageUp,
        UserAction::ViewImage,
    ];
    for (i, a) in all.iter().enumerate() {
        for (j, b) in all.iter().enumerate() {
            assert_eq!(i == j, a == b);
        }
    }
}
