use script_tool::line::{classify, DirectiveKind, ScriptLine, Speaker};

fn s(x: &str) -> String {
    x.to_string()
}

#[test]
fn classify_scene_directive() {
    assert_eq!(
        classify("# scene: intro"),
        ScriptLine::Directive { kind: DirectiveKind::Scene, args: s("intro") }
    );
}

#[test]
fn classify_show_directive() {
    assert_eq!(
        classify("show bg_park at left"),
        ScriptLine::Directive { kind: DirectiveKind::Show, args: s("bg_park at left") }
    );
}

#[test]
fn classify_tag_directive() {
    assert_eq!(
        classify("## ep3 intro #1"),
        ScriptLine::Directive { kind: DirectiveKind::Tag, args: s("ep3 intro #1") }
    );
}

#[test]
fn classify_code_dialogue() {
    assert_eq!(
        classify("J: Hello there"),
        ScriptLine::Dialogue { speaker: Speaker::Code(s("J")), text: s("Hello there") }
    );
}

#[test]
fn classify_named_dialogue() {
    assert_eq!(
        classify("@Jordan: Hi: you"),
        ScriptLine::Dialogue { speaker: Speaker::Name(s("Jordan")), text: s("Hi: you") }
    );
}

#[test]
fn classify_falls_back_to_other() {
    for line in ["", "plain text", ": no speaker", "J:no space", "J:", "# scene:x"] {
        assert_eq!(classify(line), ScriptLine::Other { raw: s(line) });
    }
}

#[test]
fn directive_wins_over_dialogue() {
    assert_eq!(
        classify("# scene: a: b"),
        ScriptLine::Directive { kind: DirectiveKind::Scene, args: s("a: b") }
    );
}

#[test]
fn render_gives_back_the_line() {
    for line in [
        "# scene: intro",
        "show bg_park",
        "## ep1 - #2",
        "J: Hello there",
        "@Jordan: Hi",
        "@: odd",
        "anything else",
        "",
    ] {
        assert_eq!(classify(line).render(), s(line));
    }
}
