use script_tool::error::ConversionError;
use script_tool::render_table::{build, RenderEntry};
use script_tool::speakers::{SpeakerEntry, SpeakerRegistry};
use script_tool::{transcribing, writing};

fn v(xs: &[&str]) -> Vec<String> {
    xs.iter().map(|x| x.to_string()).collect()
}

fn jordan() -> SpeakerRegistry {
    SpeakerRegistry::load(&v(&["J=Jordan", "", "M=Mia Lee"])).unwrap()
}

#[test]
fn registry_loads_entries_in_order() {
    let reg = jordan();
    assert_eq!(
        reg.entries,
        vec![
            SpeakerEntry { code: "J".to_string(), name: "Jordan".to_string() },
            SpeakerEntry { code: "M".to_string(), name: "Mia Lee".to_string() },
        ]
    );
    assert_eq!(reg.resolve("M", 0), Ok("Mia Lee".to_string()));
}

#[test]
fn registry_rejects_malformed_and_repeated_lines() {
    assert_eq!(
        SpeakerRegistry::load(&v(&["J=Jordan", "no equals"])),
        Err(ConversionError::RegistryLoad { line: 1 })
    );
    assert_eq!(
        SpeakerRegistry::load(&v(&["", "J=Jordan", "J=Jay"])),
        Err(ConversionError::RegistryLoad { line: 2 })
    );
    assert_eq!(SpeakerRegistry::load(&v(&["=Nobody"])), Err(ConversionError::RegistryLoad { line: 0 }));
    assert_eq!(SpeakerRegistry::load(&v(&["J="])), Err(ConversionError::RegistryLoad { line: 0 }));
    assert_eq!(SpeakerRegistry::load(&v(&["@J=x"])), Err(ConversionError::RegistryLoad { line: 0 }));
    assert_eq!(SpeakerRegistry::load(&v(&["J=a:b"])), Err(ConversionError::RegistryLoad { line: 0 }));
}

#[test]
fn resolution_rewrites_code_to_name() {
    let reg = SpeakerRegistry::load(&v(&["J=Jordan"])).unwrap();
    let out = writing::convert(&reg, &v(&["J: Hello there"])).unwrap();
    assert_eq!(out, v(&["@Jordan: Hello there"]));
    assert!(out[0].contains("Jordan"));
}

#[test]
fn resolution_fails_on_unknown_code() {
    let reg = SpeakerRegistry::load(&v(&["J=Jordan"])).unwrap();
    let input = v(&["# scene: intro", "J: Hi", "K: Who?", "Z: later"]);
    let r = writing::convert(&reg, &input);
    assert_eq!(r, Err(ConversionError::SpeakerResolution { line: 2, code: "K".to_string() }));
    assert_eq!(input, v(&["# scene: intro", "J: Hi", "K: Who?", "Z: later"]));
}

#[test]
fn writing_passes_other_lines_through() {
    let reg = jordan();
    let input = v(&["# scene: intro", "show bg_park", "@Someone: kept", "text", "## ep1 - #1"]);
    assert_eq!(writing::convert(&reg, &input).unwrap(), input);
}

#[test]
fn writing_is_idempotent_on_example() {
    let reg = jordan();
    let once = writing::convert(&reg, &v(&["J: a", "show x", "M: b"])).unwrap();
    let twice = writing::convert(&reg, &once).unwrap();
    assert_eq!(once, v(&["@Jordan: a", "show x", "@Mia Lee: b"]));
    assert_eq!(once, twice);
}

#[test]
fn transcribing_tags_dialogue() {
    let out = transcribing::convert(7, &v(&["J: first", "# scene: park", "show bg", "M: second"])).unwrap();
    assert_eq!(
        out,
        v(&["## ep7 - #1", "J: first", "# scene: park", "show bg", "## ep7 park #2", "M: second"])
    );
}

#[test]
fn transcribing_is_idempotent_on_example() {
    let once = transcribing::convert(12, &v(&["# scene: a", "J: x", "J: y", "# scene: b", "K: z"])).unwrap();
    let twice = transcribing::convert(12, &once).unwrap();
    assert_eq!(once, twice);
    assert_eq!(once[1], "## ep12 a #1");
    assert_eq!(once[6], "## ep12 b #3");
}

#[test]
fn transcribing_rejects_unnamed_scene() {
    assert_eq!(
        transcribing::convert(1, &v(&["J: a", "# scene: "])),
        Err(ConversionError::DirectiveParse { line: 1 })
    );
}

#[test]
fn round_trip_keeps_dialogue() {
    let reg = jordan();
    let w1 = writing::convert(&reg, &v(&["# scene: s", "J: one", "M: two"])).unwrap();
    let t = transcribing::convert(2, &w1).unwrap();
    let w2 = writing::convert(&reg, &t).unwrap();
    assert_eq!(w2, t);
    let dialogue: Vec<&String> = w2.iter().filter(|l| l.starts_with('@')).collect();
    assert_eq!(dialogue, vec!["@Jordan: one", "@Mia Lee: two"]);
}

#[test]
fn dedup_render_table() {
    let t = build(&v(&["show bg_park", "show char_a", "show bg_park"]));
    assert_eq!(
        t.entries,
        vec![
            RenderEntry { identifier: "bg_park".to_string(), occurrence_count: 2, first_line: 0 },
            RenderEntry { identifier: "char_a".to_string(), occurrence_count: 1, first_line: 1 },
        ]
    );
    assert!(t.skipped.is_empty());
}

#[test]
fn render_table_skips_show_without_identifier() {
    let t = build(&v(&["show  at left", "show bg with fade", "J: show x"]));
    assert_eq!(t.skipped, vec![0]);
    assert_eq!(t.entries.len(), 1);
    assert_eq!(t.entries[0].identifier, "bg");
    assert_eq!(t.entries[0].first_line, 1);
}

#[test]
fn render_table_of_empty_script() {
    let t = build(&Vec::new());
    assert!(t.entries.is_empty());
    assert!(t.skipped.is_empty());
}

#[test]
fn end_to_end() {
    let input = v(&["# scene: intro", "J: Hello there", "show bg_park", "J: Nice day"]);
    let out = transcribing::convert(3, &input).unwrap();
    assert_eq!(
        out,
        v(&[
            "# scene: intro",
            "## ep3 intro #1",
            "J: Hello there",
            "show bg_park",
            "## ep3 intro #2",
            "J: Nice day",
        ])
    );
    let t = build(&input);
    assert_eq!(
        t.entries,
        vec![RenderEntry { identifier: "bg_park".to_string(), occurrence_count: 1, first_line: 2 }]
    );
}

#[test]
fn render_table_rows() {
    let t = build(&v(&["J: hi", "show bg_park", "show char_a", "show bg_park at left"]));
    assert_eq!(t.to_lines("ep1/intro.rpy"), v(&["bg_park,2,ep1/intro.rpy:1", "char_a,1,ep1/intro.rpy:2"]));
}

#[test]
fn render_table_row_counts_past_nine() {
    let lines: Vec<String> = (0..12).map(|_| "show x".to_string()).collect();
    assert_eq!(build(&lines).to_lines("f"), v(&["x,12,f:0"]));
}
