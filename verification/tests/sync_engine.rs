use anki_typst::config::{Config, RegexString};
use anki_typst::engine::{
    decks_to_create, default_model_data, group_by_deck, notes_from_info, plan_note_uploads,
    resolve_note, select_notes, watch_action, Model, State, UpdateError, WatchAction, WatchEvent,
};
use anki_typst::interface::{media_filename, CompileOutput, ThemedCompileOutput};
use anki_typst::api::{CardInfo, NoteInfo, NoteInfoField};
use anki_typst::metadata::{Field, InnerMetadata, Metadata, Note, NoteWithInfo};

fn note(deck: &str, model: &str, fields: Vec<(&str, Field)>, tags: Vec<&str>) -> Note {
    Note {
        id: None,
        deck: deck.to_string(),
        model: model.to_string(),
        fields: fields.into_iter().map(|(n, f)| (n.to_string(), f)).collect(),
        tags: tags.into_iter().map(str::to_string).collect(),
    }
}

fn record(n: Note) -> InnerMetadata {
    InnerMetadata {
        func: "metadata".to_string(),
        value: n,
        label: "<anki-export>".to_string(),
    }
}

fn state_with(models: Vec<(&str, Vec<&str>)>, decks: Vec<&str>) -> State {
    State {
        deck_names: decks.into_iter().map(str::to_string).collect(),
        models: models
            .into_iter()
            .map(|(n, fs)| {
                (
                    n.to_string(),
                    Model { field_names: fs.into_iter().map(str::to_string).collect() },
                )
            })
            .collect(),
        added_notes: Vec::new(),
        last_hashes: Vec::new(),
    }
}

#[test]
fn unchanged_content_is_skipped_on_the_second_pass() {
    let mut s = state_with(vec![], vec![]);
    let (changed, h1) = s.observe_content("notes.typ", "#card(front: [x])");
    assert!(changed);
    let (changed, h2) = s.observe_content("notes.typ", "#card(front: [x])");
    assert!(!changed);
    assert_eq!(h1, h2);
    let (changed, _) = s.observe_content("notes.typ", "#card(front: [y])");
    assert!(changed);
}

#[test]
fn unknown_field_is_rejected_before_any_submission() {
    let s = state_with(vec![("M", vec!["front", "back"])], vec!["D"]);
    let meta = Metadata(vec![record(note(
        "D",
        "M",
        vec![("bogus", Field::Raw("x".to_string()))],
        vec![],
    ))]);
    let r = select_notes(&s.models, &s.added_notes, &meta, false, &None);
    assert!(
        matches!(r, Err(UpdateError::UnknownField { model, field }) if model == "M" && field == "bogus")
    );
}

#[test]
fn unknown_model_is_rejected() {
    let s = state_with(vec![("M", vec!["front"])], vec!["D"]);
    let meta = Metadata(vec![record(note("D", "N", vec![], vec![]))]);
    let r = select_notes(&s.models, &s.added_notes, &meta, false, &None);
    assert!(matches!(r, Err(UpdateError::UnknownModel(m)) if m == "N"));
}

#[test]
fn known_notes_are_not_selected_again() {
    let mut s = state_with(vec![("M", vec!["front"])], vec!["D"]);
    let existing = note("D", "M", vec![("front", Field::Raw("x".to_string()))], vec![]);
    s.added_notes.push(NoteWithInfo { note: existing, id: Some(4), question: None });
    let meta = Metadata(vec![record(note(
        "D",
        "M",
        vec![("front", Field::Raw("x".to_string()))],
        vec![],
    ))]);
    let (selected, anomalies) = select_notes(&s.models, &s.added_notes, &meta, false, &None).unwrap();
    assert!(selected.is_empty());
    assert!(anomalies.is_empty());
}

#[test]
fn selection_augments_tags_and_flags_id_anomalies() {
    let mut s = state_with(vec![("M", vec!["front"])], vec!["D"]);
    let mut existing = note(
        "D",
        "M",
        vec![("front", Field::Raw("x".to_string()))],
        vec!["generated", "generated@2024-05-01"],
    );
    existing.id = Some("old".to_string());
    s.added_notes.push(NoteWithInfo { note: existing, id: Some(4), question: None });
    let mut incoming = note("D", "M", vec![("front", Field::Raw("x".to_string()))], vec![]);
    incoming.id = Some("new".to_string());
    let meta = Metadata(vec![
        record(incoming),
        record(note("D", "M", vec![("front", Field::Raw("y".to_string()))], vec![])),
    ]);
    let (selected, anomalies) =
        select_notes(&s.models, &s.added_notes, &meta, true, &Some("generated@2024-05-01".to_string()))
            .unwrap();
    // the first note is known (ids differ: flagged); the second is new
    assert_eq!(anomalies, vec![0]);
    assert_eq!(selected.len(), 1);
    assert_eq!(
        selected[0].tags,
        vec!["generated".to_string(), "generated@2024-05-01".to_string()]
    );
}

fn single_output(pages: Vec<(usize, &str, &str)>) -> CompileOutput {
    CompileOutput {
        files: pages
            .into_iter()
            .map(|(n, p, d)| (n, (p.to_string(), d.to_string())))
            .collect(),
    }
}

#[test]
fn single_page_content_emits_one_reference_with_alt_text() {
    let mut n = note(
        "D",
        "M",
        vec![(
            "view",
            Field::Content { content: "label".to_string(), page_start: 2, page_end: 2 },
        )],
        vec![],
    );
    n.id = Some("n1".to_string());
    let out = ThemedCompileOutput::Light(single_output(vec![(2, "/tmp/page2.svg", "QUJD")]));
    let reqs = plan_note_uploads(&n, &out).unwrap();
    assert_eq!(reqs.len(), 1);
    assert_eq!(reqs[0].filename, "n1_page2.svg");
    assert_eq!(reqs[0].data, "QUJD");
    let api = resolve_note(&n, false, &vec!["srv_n1_page2.svg".to_string()]);
    assert_eq!(api.fields.len(), 1);
    assert_eq!(api.fields[0].0, "view");
    assert_eq!(api.fields[0].1, "<img src=\"srv_n1_page2.svg\" alt=\"label\">");
}

#[test]
fn three_page_content_has_alt_text_only_on_the_first() {
    let mut n = note(
        "D",
        "M",
        vec![(
            "view",
            Field::Content { content: "label".to_string(), page_start: 2, page_end: 4 },
        )],
        vec![],
    );
    n.id = Some("n1".to_string());
    let out = ThemedCompileOutput::Light(single_output(vec![
        (2, "p2", "AA"),
        (3, "p3", "BB"),
        (4, "p4", "CC"),
    ]));
    let reqs = plan_note_uploads(&n, &out).unwrap();
    assert_eq!(
        reqs.iter().map(|r| r.filename.clone()).collect::<Vec<_>>(),
        vec!["n1_page2.svg", "n1_page3.svg", "n1_page4.svg"]
    );
    let api = resolve_note(&n, false, &vec!["a".to_string(), "b".to_string(), "c".to_string()]);
    assert_eq!(
        api.fields[0].1,
        "<img src=\"a\" alt=\"label\"><img src=\"b\"><img src=\"c\">"
    );
}

#[test]
fn both_themes_emit_light_and_dark_references() {
    let mut n = note(
        "D",
        "M",
        vec![(
            "view",
            Field::Content { content: "label".to_string(), page_start: 2, page_end: 2 },
        )],
        vec![],
    );
    n.id = Some("n1".to_string());
    let out = ThemedCompileOutput::Both {
        light: single_output(vec![(2, "pl", "LL")]),
        dark: single_output(vec![(2, "pd", "DD")]),
    };
    let reqs = plan_note_uploads(&n, &out).unwrap();
    assert_eq!(reqs.len(), 2);
    assert_eq!(reqs[0].filename, "n1_page2.svg");
    assert_eq!(reqs[0].data, "LL");
    assert_eq!(reqs[1].filename, "n1_page2.svg");
    assert_eq!(reqs[1].data, "DD");
    let api = resolve_note(&n, true, &vec!["l.svg".to_string(), "d.svg".to_string()]);
    assert_eq!(
        api.fields[0].1,
        "<img src=\"l.svg\" alt=\"label\" class=\"lighttheme\"><img src=\"d.svg\" alt=\"label\" class=\"darktheme\">"
    );
}

#[test]
fn content_without_id_or_page_fails_the_plan() {
    let n = note(
        "D",
        "M",
        vec![(
            "view",
            Field::Content { content: "c".to_string(), page_start: 1, page_end: 1 },
        )],
        vec![],
    );
    let out = ThemedCompileOutput::Light(single_output(vec![(1, "p1", "AA")]));
    assert!(matches!(plan_note_uploads(&n, &out), Err(UpdateError::MissingId)));
    let mut with_id = n.clone();
    with_id.id = Some("x".to_string());
    let empty_out = ThemedCompileOutput::Light(single_output(vec![]));
    assert!(matches!(plan_note_uploads(&with_id, &empty_out), Err(UpdateError::MissingPage(1))));
}

#[test]
fn batched_results_count_and_track_everything() {
    let mut s = state_with(vec![], vec!["D"]);
    let notes = vec![
        note("D", "M", vec![("front", Field::Raw("a".to_string()))], vec![]),
        note("D", "M", vec![("front", Field::Raw("b".to_string()))], vec![]),
        note("D", "M", vec![("front", Field::Raw("c".to_string()))], vec![]),
    ];
    let ids = vec![Some(11), None, Some(12)];
    let (added, duplicates) = s.record_results(&notes, &ids);
    assert_eq!(added, 2);
    assert_eq!(duplicates, 1);
    // all three are tracked, the remote-judged duplicate too
    assert_eq!(s.added_notes.len(), 3);
    assert_eq!(s.added_notes[1].id, None);
    assert_eq!(s.added_notes[2].id, Some(12));
    assert_eq!(s.added_notes[0].note.fields[0].1.text(), "a");
}

#[test]
fn grouping_splits_by_deck_and_keeps_order() {
    let mk = |deck: &str, front: &str| {
        let n = note(deck, "M", vec![("front", Field::Raw(front.to_string()))], vec![]);
        let api = resolve_note(&n, false, &Vec::new());
        (n, api)
    };
    let groups = group_by_deck(vec![mk("A", "1"), mk("B", "2"), mk("A", "3")]);
    assert_eq!(groups.len(), 2);
    let a = groups.iter().find(|g| g.deck == "A").unwrap();
    let b = groups.iter().find(|g| g.deck == "B").unwrap();
    assert_eq!(a.notes.len(), 2);
    assert_eq!(a.api_notes.len(), 2);
    assert_eq!(a.notes[0].fields[0].1.text(), "1");
    assert_eq!(a.notes[1].fields[0].1.text(), "3");
    assert_eq!(b.notes.len(), 1);
    assert_eq!(b.api_notes[0].fields[0].1, "2");
}

#[test]
fn deck_is_known_consults_the_state() {
    let s = state_with(vec![], vec!["A", "A::B"]);
    assert!(s.deck_is_known("A::B"));
    assert!(!s.deck_is_known("C"));
    assert!(s.check_deck("A").is_ok());
    assert!(matches!(s.check_deck("C"), Err(UpdateError::UnknownDeck(d)) if d == "C"));
}

#[test]
fn missing_decks_are_expanded_and_deduplicated() {
    let used = vec!["A::B".to_string(), "A::B::C".to_string()];
    let available = vec!["A".to_string()];
    let missing = decks_to_create(&used, &available);
    assert_eq!(missing, vec!["A::B".to_string(), "A::B::C".to_string()]);
    let none: Vec<String> = decks_to_create(&vec!["A".to_string()], &vec!["A".to_string()]);
    assert!(none.is_empty());
}

#[test]
fn stored_notes_are_rebuilt_from_note_and_card_info() {
    let card = |deck: &str, question: &str| CardInfo {
        answer: String::new(),
        question: question.to_string(),
        deck_name: deck.to_string(),
        model_name: "M".to_string(),
        field_order: 0,
        fields: vec![],
        css: String::new(),
        card_id: 0,
        interval: 0,
        note: 0,
        ord: 0,
        kind: 0,
        queue: 0,
        due: 0,
        reps: 0,
        lapses: 0,
        left: 0,
        modified: 0,
    };
    let notes = vec![NoteInfo {
        note_id: 5,
        model_name: "M".to_string(),
        fields: vec![
            ("id".to_string(), NoteInfoField { value: "doc1".to_string(), order: 0 }),
            ("front".to_string(), NoteInfoField { value: "f".to_string(), order: 1 }),
        ],
        tags: vec!["t".to_string()],
        cards: vec![10, 11],
    }];
    let cards = vec![card("D", "q1"), card("D", "q2")];
    let rebuilt = notes_from_info(&notes, &cards);
    assert_eq!(rebuilt.len(), 1);
    let w = &rebuilt[0];
    assert_eq!(w.id, Some(5));
    assert_eq!(w.question.as_deref(), Some("q2"));
    assert_eq!(w.note.id.as_deref(), Some("doc1"));
    assert_eq!(w.note.deck, "D");
    assert_eq!(w.note.model, "M");
    assert_eq!(w.note.tags, vec!["t".to_string()]);
    assert_eq!(w.note.fields[1].1.text(), "f");
}

#[test]
fn compile_output_reads_page_files() {
    let mut out = CompileOutput::new();
    out.insert_page_file("page3.svg", "/tmp/page3.svg".to_string(), &b"abc".to_vec())
        .unwrap();
    out.insert_page_file("page007.svg", "/tmp/page007.svg".to_string(), &b"xy".to_vec())
        .unwrap();
    // the stored data is the base64 encoding, not the raw bytes
    let (path, data) = out.page(3).unwrap();
    assert_eq!(path, "/tmp/page3.svg");
    assert_eq!(data, "YWJj");
    assert_eq!(out.page(7).unwrap().1, "eHk=");
    assert!(out.page(4).is_none());
    assert!(out.insert_page_file("page.svg", "p".to_string(), &vec![]).is_err());
    assert!(out.insert_page_file("foo3.svg", "p".to_string(), &vec![]).is_err());
    assert!(out.insert_page_file("page3.png", "p".to_string(), &vec![]).is_err());
}

#[test]
fn media_filenames_follow_the_note_and_page() {
    assert_eq!(media_filename("n1", 12), "n1_page12.svg");
    assert_eq!(media_filename("x", 0), "x_page0.svg");
}

#[test]
fn include_and_exclude_filters() {
    let cfg = Config::from_parts(
        None,
        &vec!["\\.typ$".to_string()],
        &vec!["skip".to_string()],
        true,
        None,
    )
    .unwrap();
    assert!(!cfg.is_ignored("notes.typ"));
    assert!(cfg.is_ignored("notes.txt"));
    assert!(cfg.is_ignored("skip/notes.typ"));
    // with no include patterns everything not excluded is processed
    let open = Config::from_parts(None, &vec![], &vec![], false, None).unwrap();
    assert!(!open.is_ignored("anything"));
    assert!(RegexString::new("(").is_err());
    // an invalid pattern fails the load, whether it is an include or an exclude
    assert!(Config::from_parts(None, &vec!["(".to_string()], &vec![], false, None).is_err());
    assert!(Config::from_parts(None, &vec![], &vec!["(".to_string()], false, None).is_err());
}

#[test]
fn watch_loop_decisions() {
    assert_eq!(watch_action(WatchEvent::Access), WatchAction::Ignore);
    assert_eq!(watch_action(WatchEvent::Create), WatchAction::WarnUnexpectedCreate);
    assert_eq!(watch_action(WatchEvent::Modify), WatchAction::Update);
    assert_eq!(watch_action(WatchEvent::Remove), WatchAction::RearmAndUpdate);
    assert_eq!(watch_action(WatchEvent::Other), WatchAction::WarnUnknown);
}

#[test]
fn default_model_shape() {
    let m = default_model_data("anki-typst".to_string());
    assert_eq!(m.model_name, "anki-typst");
    assert_eq!(m.in_order_fields, vec!["front", "back", "proof", "number", "date"]);
    assert!(!m.is_cloze);
    assert_eq!(m.card_templates.len(), 1);
    assert_eq!(m.card_templates[0][0].0, "Name");
    assert!(m.css.contains(".nightMode .darktheme"));
    assert!(m.css.contains("text-align: center;"));
}
