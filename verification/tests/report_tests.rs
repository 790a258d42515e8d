use anyhow::Context;
use ghcheck::report::render_error;

fn error_with_hostile_source() -> anyhow::Error {
    let hostile = "\u{1b}[2J\u{1b}[H\u{1b}[32mAll checks passed\u{1b}[0m\u{7}";
    let source: Result<(), _> = Err(std::io::Error::other(format!(
        "unknown variant `{hostile}`"
    )));
    source
        .context("failed to parse gh GraphQL response")
        .unwrap_err()
}

#[test]
fn terminating_error_is_encoded() {
    let rendered = render_error(&error_with_hostile_source());
    assert!(
        !rendered.contains('\u{1b}'),
        "ESC reached stderr: {rendered:?}"
    );
    assert!(
        !rendered.contains('\u{7}'),
        "BEL reached stderr: {rendered:?}"
    );
}

#[test]
fn terminating_error_keeps_the_source_chain() {
    let rendered = render_error(&error_with_hostile_source());
    assert!(rendered.contains("failed to parse gh GraphQL response"));
    assert!(rendered.contains("unknown variant"));
}
