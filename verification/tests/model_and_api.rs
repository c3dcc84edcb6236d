use anki_typst::api::{
    add_note_verdict, connection_error, is_duplicate_error, unwrap_multi, ApiError, MediaData,
    ReqResult, ReqResultStruct, Request, SingleOrMulti,
};
use anki_typst::api::collect_multi;
use anki_typst::deck::deck_prefixes;
use anki_typst::metadata::{
    note_eq, Field, InnerMetadata, Metadata, MetadataError, Note, NoteMatch, NoteWithInfo,
};

fn plain_note(deck: &str, model: &str, fields: Vec<(&str, Field)>, tags: Vec<&str>) -> Note {
    Note {
        id: None,
        deck: deck.to_string(),
        model: model.to_string(),
        fields: fields.into_iter().map(|(n, f)| (n.to_string(), f)).collect(),
        tags: tags.into_iter().map(str::to_string).collect(),
    }
}

#[test]
fn equal_notes_ignore_id_and_tag_order() {
    let mut a = plain_note(
        "D",
        "M",
        vec![("front", Field::Raw("x".to_string())), ("back", Field::Empty)],
        vec!["t1", "t2"],
    );
    let mut b = plain_note(
        "D",
        "M",
        vec![("front", Field::Raw("x".to_string()))],
        vec!["t2", "t1"],
    );
    a.id = Some("one".to_string());
    b.id = Some("two".to_string());
    // empty field on one side, tag order swapped, ids different: still equal
    assert!(note_eq(&a, &b));
    let seen = NoteWithInfo { note: a, id: Some(1), question: None };
    assert_eq!(seen.check_against(&b), NoteMatch::EqualIdMismatch);
}

#[test]
fn distinct_notes_are_distinct() {
    let a = plain_note("D", "M", vec![("front", Field::Raw("x".to_string()))], vec![]);
    let b = plain_note("E", "M", vec![("front", Field::Raw("x".to_string()))], vec![]);
    assert!(!note_eq(&a, &b));
    let c = plain_note("D", "M", vec![("front", Field::Raw("y".to_string()))], vec![]);
    assert!(!note_eq(&a, &c));
    let seen = NoteWithInfo { note: a.clone(), id: None, question: None };
    assert_eq!(seen.check_against(&b), NoteMatch::Distinct);
    assert_eq!(seen.check_against(&a), NoteMatch::Equal);
}

#[test]
fn content_field_compares_by_its_text() {
    let a = plain_note(
        "D",
        "M",
        vec![("v", Field::Content { content: "lbl".to_string(), page_start: 1, page_end: 2 })],
        vec![],
    );
    let b = plain_note("D", "M", vec![("v", Field::Raw("lbl".to_string()))], vec![]);
    assert!(note_eq(&a, &b));
}

#[test]
fn deck_path_decomposition() {
    let parts = deck_prefixes("A::B::C");
    assert_eq!(parts, vec!["A".to_string(), "A::B".to_string(), "A::B::C".to_string()]);
    assert_eq!(deck_prefixes("A"), vec!["A".to_string()]);
    // re-decomposing the last element reproduces the same list
    let again = deck_prefixes(&parts[parts.len() - 1]);
    assert_eq!(again, parts);
}

#[test]
fn envelope_resolution() {
    let ok: ReqResultStruct<u32> = ReqResultStruct { result: Some(7), error: None };
    assert_eq!(ok.get().unwrap(), 7);
    let neither: ReqResultStruct<u32> = ReqResultStruct { result: None, error: None };
    assert!(matches!(neither.get(), Err(ApiError::MissingResult)));
    let remote: ReqResultStruct<u32> =
        ReqResultStruct { result: None, error: Some("boom".to_string()) };
    assert!(matches!(remote.get(), Err(ApiError::Remote(m)) if m == "boom"));
    let both: ReqResultStruct<u32> =
        ReqResultStruct { result: Some(7), error: Some("boom".to_string()) };
    assert!(matches!(both.get(), Err(ApiError::ResultAndError(m)) if m == "boom"));
    let raw: ReqResult<u32> = ReqResult::Raw(3);
    assert_eq!(raw.get().unwrap(), 3);
}

#[test]
fn multi_results_resolve_independently() {
    let rs: Vec<ReqResult<u32>> = vec![
        ReqResult::Raw(1),
        ReqResult::Struct(ReqResultStruct { result: None, error: Some("boom".to_string()) }),
        ReqResult::Struct(ReqResultStruct { result: Some(3), error: None }),
    ];
    let out = unwrap_multi(rs);
    assert_eq!(out.len(), 3);
    assert_eq!(*out[0].as_ref().unwrap(), 1);
    assert!(matches!(&out[1], Err(ApiError::Remote(m)) if m == "boom"));
    assert_eq!(*out[2].as_ref().unwrap(), 3);

    let collected = collect_multi(vec![Ok(1u32), Err(ApiError::MissingResult), Ok(3u32)]);
    assert!(matches!(collected, Err(ApiError::MissingResult)));
    let collected = collect_multi::<u32>(vec![Ok(1), Ok(3)]);
    assert_eq!(collected.unwrap(), vec![1, 3]);
}

#[test]
fn connection_errors_are_distinguished() {
    let conn = connection_error(true, "unused".to_string());
    assert!(matches!(conn, ApiError::ConnectionFailed));
    assert_eq!(
        conn.hint().unwrap(),
        "is anki open? you also need to install anki-connect: https://ankiweb.net/shared/info/2055492159"
    );
    let other = connection_error(false, "timed out".to_string());
    assert!(matches!(&other, ApiError::Transport(d) if d == "timed out"));
    assert!(other.hint().is_none());
}

#[test]
fn duplicate_add_note_message() {
    assert!(is_duplicate_error("cannot create note because it is a duplicate"));
    assert!(is_duplicate_error("err: cannot create note because it is a duplicate"));
    assert!(!is_duplicate_error("cannot create note"));
    let dup = add_note_verdict(Err(ApiError::Remote(
        "cannot create note because it is a duplicate".to_string(),
    )));
    assert_eq!(dup.unwrap(), None);
    let other = add_note_verdict(Err(ApiError::Remote("nope".to_string())));
    assert!(matches!(other, Err(ApiError::Remote(m)) if m == "nope"));
    let created = add_note_verdict(Ok(Some(9)));
    assert_eq!(created.unwrap(), Some(9));
}

#[test]
fn request_carries_version_six() {
    let r = Request::new("deckNames".to_string(), 0u8);
    assert_eq!(r.action, "deckNames");
    assert_eq!(r.version, 6);
}

#[test]
fn single_or_multi_into_vec() {
    let m: SingleOrMulti<u32> = SingleOrMulti::Multi(vec![1, 2]);
    assert_eq!(m.into_vec(), vec![1, 2]);
    let s: SingleOrMulti<u32> = SingleOrMulti::Single(5);
    assert_eq!(s.into_vec(), vec![5]);
    let d: SingleOrMulti<u32> = Default::default();
    assert!(matches!(d, SingleOrMulti::Multi(v) if v.is_empty()));
    assert!(MediaData::default_delete_existing());
}

#[test]
fn metadata_records_are_validated() {
    let note = plain_note("D", "M", vec![], vec![]);
    let good = InnerMetadata {
        func: "metadata".to_string(),
        value: note.clone(),
        label: "<anki-export>".to_string(),
    };
    assert!(good.validate().is_ok());
    let bad_func = InnerMetadata {
        func: "other".to_string(),
        value: note.clone(),
        label: "<anki-export>".to_string(),
    };
    assert!(matches!(bad_func.validate(), Err(MetadataError::BadFunc(f)) if f == "other"));
    let bad_label = InnerMetadata {
        func: "metadata".to_string(),
        value: note,
        label: "<other>".to_string(),
    };
    assert!(
        matches!(bad_label.validate(), Err(MetadataError::BadLabel(l)) if l == "<other>")
    );
    let all = Metadata(vec![good, bad_label]);
    assert!(matches!(all.validate(), Err(MetadataError::BadLabel(_))));
}
