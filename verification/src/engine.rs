//! The synchronization engine: the decisions taken for one processed change
//! event, from the content-hash gate through note selection to recording the
//! outcome of a batched submission. All I/O — reading files, calling the
//! remote service, running the compiler — happens outside; this module is
//! handed plain values and returns plain decisions.

use vstd::prelude::*;

use crate::assoc::{
    assoc_get, assoc_index, assoc_unique, lemma_assoc_get_absent, lemma_assoc_get_present,
    lemma_assoc_get_push, lemma_assoc_get_update,
};
use crate::api::Note as ApiNote;
use crate::api::SingleOrMulti;
use crate::interface::{
    spec_img_tag, spec_media_filename, spec_themed_img_tags, img_tag, media_filename,
    themed_img_tags, CompileOutput, ThemedCompileOutput,
};
use crate::metadata::{
    Field, FieldV, id_mismatch, note_equal, Metadata, Note, NoteV, NoteWithInfo,
};
use crate::text::contains_str;

verus! {

/// A remote note schema: the ordered field names a note of this model may use.
#[derive(Debug, Clone)]
pub struct Model {
    pub field_names: Vec<String>,
}

impl View for Model {
    type V = Seq<Seq<char>>;

    open spec fn view(&self) -> Seq<Seq<char>> {
        self.field_names@.map_values(|t: String| t@)
    }
}

/// Process-lifetime state of the engine: the remote names it knows, the notes
/// it has already submitted, and the content hash last seen per file.
#[derive(Debug)]
pub struct State {
    pub deck_names: Vec<String>,
    pub models: Vec<(String, Model)>,
    pub added_notes: Vec<NoteWithInfo>,
    pub last_hashes: Vec<(String, u64)>,
}

impl State {
    pub open spec fn decks_v(&self) -> Seq<Seq<char>> {
        self.deck_names@.map_values(|t: String| t@)
    }

    pub open spec fn models_v(&self) -> Seq<(Seq<char>, Seq<Seq<char>>)> {
        self.models@.map_values(|p: (String, Model)| (p.0@, p.1@))
    }

    pub open spec fn added_v(&self) -> Seq<crate::metadata::NoteV> {
        self.added_notes@.map_values(|n: NoteWithInfo| n.note@)
    }

    pub open spec fn hashes_v(&self) -> Seq<(Seq<char>, u64)> {
        self.last_hashes@.map_values(|p: (String, u64)| (p.0@, p.1))
    }
}

/// A file's content counts as changed when its hash is not the one last
/// recorded for that path.
pub open spec fn spec_changed(s: State, path: Seq<char>, hash: u64) -> bool {
    assoc_get(s.hashes_v(), path) != Some(hash)
}

impl State {
    /// Records `hash` as the last-seen content hash of `path` and reports
    /// whether the content changed since the previous observation. On an
    /// unchanged file nothing is recorded and the caller must do no further
    /// work for this event.
    pub fn register_content(&mut self, path: &str, hash: u64) -> (changed: bool)
        requires
            assoc_unique(old(self).hashes_v()),
            old(self).last_hashes@.len() < usize::MAX,
        ensures
            changed == spec_changed(*old(self), path@, hash),
            assoc_get(final(self).hashes_v(), path@) == Some(hash),
            forall|k: Seq<char>|
                k != path@ ==> #[trigger] assoc_get(final(self).hashes_v(), k) == assoc_get(
                    old(self).hashes_v(),
                    k,
                ),
            assoc_unique(final(self).hashes_v()),
            !changed ==> *final(self) == *old(self),
            final(self).deck_names == old(self).deck_names,
            final(self).models == old(self).models,
            final(self).added_notes == old(self).added_notes,
    {
        let ghost old_v = self.hashes_v();
        match assoc_index(&self.last_hashes, path) {
            Some(i) => {
                proof {
                    lemma_assoc_get_present(old_v, path@, i as int);
                }
                if self.last_hashes[i].1 == hash {
                    false
                } else {
                    self.last_hashes[i].1 = hash;
                    proof {
                        assert(self.hashes_v() =~= old_v.update(
                            i as int,
                            (old_v[i as int].0, hash),
                        ));
                        lemma_assoc_get_present(self.hashes_v(), path@, i as int);
                        assert forall|k: Seq<char>| k != path@ implies #[trigger] assoc_get(
                            self.hashes_v(),
                            k,
                        ) == assoc_get(old_v, k) by {
                            lemma_assoc_get_update(old_v, i as int, hash, k);
                        }
                    }
                    true
                }
            },
            None => {
                proof {
                    lemma_assoc_get_absent(old_v, path@);
                }
                self.last_hashes.push((path.to_owned(), hash));
                proof {
                    assert(self.hashes_v() =~= old_v.push((path@, hash)));
                    lemma_assoc_get_present(self.hashes_v(), path@, old_v.len() as int);
                    assert forall|k: Seq<char>| k != path@ implies #[trigger] assoc_get(
                        self.hashes_v(),
                        k,
                    ) == assoc_get(old_v, k) by {
                        lemma_assoc_get_push(old_v, path@, hash, k);
                    }
                }
                true
            },
        }
    }
}

/// Re-registering content whose hash is already recorded for the path never
/// counts as a change: the second pass over an unchanged file stops at the
/// hash gate, before any remote call.
pub proof fn lemma_rerun_unchanged_skips(s: State, path: Seq<char>, hash: u64)
    requires
        assoc_get(s.hashes_v(), path) == Some(hash),
    ensures
        !spec_changed(s, path, hash),
{
}

/// Why one update cycle was aborted; every case is logged by the caller and
/// ends only the current cycle, never the process.
#[derive(Debug, Clone)]
pub enum UpdateError {
    /// A note names a model the remote application does not know.
    UnknownModel(String),
    /// A note uses a field its model's schema does not declare.
    UnknownField { model: String, field: String },
    /// A note targets a deck the remote application does not know.
    UnknownDeck(String),
    /// A content field asks for a page the compiler did not produce.
    MissingPage(usize),
    /// A content field belongs to a note without a pre-assigned id.
    MissingId,
}

/// Mathematical verdict of validating one note against the known schemas.
pub enum ValidationV {
    Valid,
    UnknownModel(Seq<char>),
    UnknownField { model: Seq<char>, field: Seq<char> },
}

/// The name of the first field, from position `i` on, that `names` does not
/// declare.
pub open spec fn first_undeclared(
    fields: Seq<(Seq<char>, crate::metadata::FieldV)>,
    names: Seq<Seq<char>>,
    i: int,
) -> Option<Seq<char>>
    decreases fields.len() - i when 0 <= i <= fields.len()
{
    if i >= fields.len() {
        None
    } else if !names.contains(fields[i].0) {
        Some(fields[i].0)
    } else {
        first_undeclared(fields, names, i + 1)
    }
}

proof fn lemma_first_undeclared_from(
    fields: Seq<(Seq<char>, crate::metadata::FieldV)>,
    names: Seq<Seq<char>>,
    j: int,
)
    requires
        0 <= j <= fields.len(),
        forall|k: int| 0 <= k < j ==> names.contains((#[trigger] fields[k]).0),
    ensures
        first_undeclared(fields, names, 0) == first_undeclared(fields, names, j),
    decreases j,
{
    if j > 0 {
        lemma_first_undeclared_from(fields, names, j - 1);
    }
}

/// A note is valid when its model is known and every field name it uses is
/// declared by that model; otherwise the verdict names what is unknown.
pub open spec fn spec_validate(
    n: NoteV,
    models: Seq<(Seq<char>, Seq<Seq<char>>)>,
) -> ValidationV {
    match assoc_get(models, n.model) {
        None => ValidationV::UnknownModel(n.model),
        Some(names) => match first_undeclared(n.fields, names, 0) {
            Some(f) => ValidationV::UnknownField { model: n.model, field: f },
            None => ValidationV::Valid,
        },
    }
}

/// Rejects a note whose model is unknown or whose first undeclared field
/// exists, exactly as `spec_validate` says.
pub fn validate_note(note: &Note, models: &Vec<(String, Model)>) -> (r: Result<(), UpdateError>)
    ensures
        ({
            let verdict = spec_validate(
                note@,
                models@.map_values(|p: (String, Model)| (p.0@, p.1@)),
            );
            &&& (r is Ok) == (verdict is Valid)
            &&& (verdict matches ValidationV::UnknownModel(x) ==> (r matches Err(
                UpdateError::UnknownModel(m),
            ) && m@ == x))
            &&& (verdict matches ValidationV::UnknownField { model: x, field: y } ==> (r matches Err(
                UpdateError::UnknownField { model: m, field: f },
            ) && m@ == x && f@ == y))
        }),
{
    let ghost mv = models@.map_values(|p: (String, Model)| (p.0@, p.1@));
    match assoc_index(models, note.model.as_str()) {
        None => {
            proof {
                lemma_assoc_get_absent(mv, note@.model);
            }
            Err(UpdateError::UnknownModel(note.model.clone()))
        },
        Some(mi) => {
            proof {
                lemma_assoc_get_present(mv, note@.model, mi as int);
            }
            let names = &models[mi].1.field_names;
            let ghost names_v = mv[mi as int].1;
            proof {
                assert(names_v == names@.map_values(|t: String| t@));
            }
            let mut j: usize = 0;
            while j < note.fields.len()
                invariant
                    j <= note.fields@.len(),
                    names_v == names@.map_values(|t: String| t@),
                    mv == models@.map_values(|p: (String, Model)| (p.0@, p.1@)),
                    assoc_get(mv, note@.model) == Some(names_v),
                    note@.fields == note.fields@.map_values(|p: (String, Field)| (p.0@, p.1@)),
                    forall|k: int| 0 <= k < j ==> names_v.contains((#[trigger] note@.fields[k]).0),
                decreases note.fields@.len() - j,
            {
                if !contains_str(names, note.fields[j].0.as_str()) {
                    proof {
                        lemma_first_undeclared_from(note@.fields, names_v, j as int);
                    }
                    return Err(UpdateError::UnknownField {
                        model: note.model.clone(),
                        field: note.fields[j].0.clone(),
                    });
                }
                j += 1;
            }
            proof {
                lemma_first_undeclared_from(note@.fields, names_v, note@.fields.len() as int);
            }
            Ok(())
        },
    }
}

/// The note as it will be submitted: tags extended by the literal `generated`
/// tag and the generation-date tag, where configured.
pub open spec fn augmented(n: NoteV, add_generated: bool, date: Option<Seq<char>>) -> NoteV {
    NoteV {
        tags: n.tags + (if add_generated {
            seq!["generated"@]
        } else {
            Seq::<Seq<char>>::empty()
        }) + (match date {
            Some(d) => seq![d],
            None => Seq::<Seq<char>>::empty(),
        }),
        ..n
    }
}

/// Appends the configured tags to the note.
pub fn augment_tags(note: &mut Note, add_generated: bool, date: &Option<String>)
    ensures
        final(note)@ == augmented(old(note)@, add_generated, date.deep_view()),
{
    if add_generated {
        note.tags.push("generated".to_owned());
    }
    match date {
        Some(d) => note.tags.push(d.clone()),
        None => {},
    }
    proof {
        assert(note@.tags =~= augmented(old(note)@, add_generated, date.deep_view()).tags);
    }
}

/// An equal note is already tracked.
pub open spec fn known_note(added: Seq<NoteV>, n: NoteV) -> bool {
    exists|i: int| 0 <= i < added.len() && note_equal(#[trigger] added[i], n)
}

/// Some tracked note is equal to `n` and yet disagrees with it on the id.
pub open spec fn known_with_id_mismatch(added: Seq<NoteWithInfo>, n: NoteV) -> bool {
    exists|i: int|
        0 <= i < added.len() && note_equal((#[trigger] added[i]).note@, n) && id_mismatch(
            added[i].note@,
            n,
        )
}

/// Scans the tracked notes: whether an equal one exists, and whether any
/// equal one disagrees on id — the anomaly that is reported, never fatal.
pub fn note_known(added: &Vec<NoteWithInfo>, n: &Note) -> (r: (bool, bool))
    ensures
        r.0 == known_note(added@.map_values(|w: NoteWithInfo| w.note@), n@),
        r.1 == known_with_id_mismatch(added@, n@),
{
    let ghost addedv = added@.map_values(|w: NoteWithInfo| w.note@);
    let mut found = false;
    let mut anomaly = false;
    let mut i: usize = 0;
    while i < added.len()
        invariant
            i <= added@.len(),
            addedv == added@.map_values(|w: NoteWithInfo| w.note@),
            found == exists|k: int| 0 <= k < i && note_equal(#[trigger] addedv[k], n@),
            anomaly == exists|k: int|
                0 <= k < i && note_equal((#[trigger] added@[k]).note@, n@) && id_mismatch(
                    added@[k].note@,
                    n@,
                ),
        decreases added@.len() - i,
    {
        match added[i].check_against(n) {
            crate::metadata::NoteMatch::Distinct => {
                proof {
                    assert(addedv[i as int] == added@[i as int].note@);
                }
            },
            crate::metadata::NoteMatch::Equal => {
                proof {
                    assert(addedv[i as int] == added@[i as int].note@);
                }
                found = true;
            },
            crate::metadata::NoteMatch::EqualIdMismatch => {
                proof {
                    assert(addedv[i as int] == added@[i as int].note@);
                }
                found = true;
                anomaly = true;
            },
        }
        i += 1;
    }
    (found, anomaly)
}

/// What one pass over the extracted notes selects for submission: in order,
/// every note that validates and is not yet known, with its tags augmented;
/// the first validation failure aborts the pass.
pub open spec fn spec_select(
    models: Seq<(Seq<char>, Seq<Seq<char>>)>,
    added: Seq<NoteV>,
    notes: Seq<NoteV>,
    add_generated: bool,
    date: Option<Seq<char>>,
    i: int,
) -> Result<Seq<NoteV>, ValidationV>
    decreases notes.len() - i when 0 <= i <= notes.len()
{
    if i >= notes.len() {
        Ok(Seq::<NoteV>::empty())
    } else {
        let verdict = spec_validate(notes[i], models);
        if !(verdict is Valid) {
            Err(verdict)
        } else {
            let n = augmented(notes[i], add_generated, date);
            match spec_select(models, added, notes, add_generated, date, i + 1) {
                Err(e) => Err(e),
                Ok(rest) => if known_note(added, n) {
                    Ok(rest)
                } else {
                    Ok(seq![n] + rest)
                },
            }
        }
    }
}

/// Walks the extracted records and selects the notes to submit, in order:
/// validates each against the known schemas (the first failure aborts the
/// whole update), augments tags, and drops notes an equal one of which is
/// already tracked. Also reports the indices of records whose equal tracked
/// note disagreed on id.
pub fn select_notes(
    models: &Vec<(String, Model)>,
    added: &Vec<NoteWithInfo>,
    metadata: &Metadata,
    add_generated: bool,
    date: &Option<String>,
) -> (r: Result<(Vec<Note>, Vec<usize>), UpdateError>)
    ensures
        ({
            let mv = models@.map_values(|p: (String, Model)| (p.0@, p.1@));
            let addedv = added@.map_values(|w: NoteWithInfo| w.note@);
            let nv = metadata.0@.map_values(|im: crate::metadata::InnerMetadata| im.value@);
            let sel = spec_select(mv, addedv, nv, add_generated, date.deep_view(), 0);
            &&& (r is Ok) == (sel is Ok)
            &&& (r matches Ok(p) ==> sel == Ok::<Seq<NoteV>, ValidationV>(
                p.0@.map_values(|n: Note| n@),
            ))
            &&& (r matches Ok(p) ==> forall|k: int|
                0 <= k < nv.len() && known_with_id_mismatch(
                    added@,
                    augmented(#[trigger] nv[k], add_generated, date.deep_view()),
                ) ==> p.1@.contains(k as usize))
            &&& (r matches Ok(p) ==> forall|x: usize|
                p.1@.contains(x) ==> x < nv.len() && known_with_id_mismatch(
                    added@,
                    augmented(nv[x as int], add_generated, date.deep_view()),
                ))
            &&& (sel matches Err(ValidationV::UnknownModel(x)) ==> (r matches Err(
                UpdateError::UnknownModel(m),
            ) && m@ == x))
            &&& (sel matches Err(ValidationV::UnknownField { model: x, field: y }) ==> (r
                matches Err(UpdateError::UnknownField { model: m, field: f }) && m@ == x && f@
                == y))
        }),
{
    let ghost mv = models@.map_values(|p: (String, Model)| (p.0@, p.1@));
    let ghost addedv = added@.map_values(|w: NoteWithInfo| w.note@);
    let ghost nv = metadata.0@.map_values(|im: crate::metadata::InnerMetadata| im.value@);
    let ghost dv = date.deep_view();
    let mut out: Vec<Note> = Vec::new();
    let mut anomalies: Vec<usize> = Vec::new();
    let mut i: usize = 0;
    while i < metadata.0.len()
        invariant
            i <= metadata.0@.len(),
            mv == models@.map_values(|p: (String, Model)| (p.0@, p.1@)),
            addedv == added@.map_values(|w: NoteWithInfo| w.note@),
            nv == metadata.0@.map_values(|im: crate::metadata::InnerMetadata| im.value@),
            dv == date.deep_view(),
            spec_select(mv, addedv, nv, add_generated, dv, 0) == match spec_select(
                mv,
                addedv,
                nv,
                add_generated,
                dv,
                i as int,
            ) {
                Ok(rest) => Ok::<Seq<NoteV>, ValidationV>(
                    out@.map_values(|n: Note| n@) + rest,
                ),
                Err(e) => Err::<Seq<NoteV>, ValidationV>(e),
            },
            forall|k: int|
                0 <= k < i && known_with_id_mismatch(
                    added@,
                    augmented(#[trigger] nv[k], add_generated, dv),
                ) ==> anomalies@.contains(k as usize),
            forall|x: usize|
                anomalies@.contains(x) ==> x < i && known_with_id_mismatch(
                    added@,
                    augmented(nv[x as int], add_generated, dv),
                ),
        decreases metadata.0@.len() - i,
    {
        let mut note = metadata.0[i].value.duplicate();
        proof {
            assert(note@ == nv[i as int]);
        }
        match validate_note(&note, models) {
            Err(e) => {
                return Err(e);
            },
            Ok(_) => {},
        }
        augment_tags(&mut note, add_generated, date);
        let (known, anomaly) = note_known(added, &note);
        if anomaly {
            let ghost an0 = anomalies@;
            anomalies.push(i);
            proof {
                assert(anomalies@[an0.len() as int] == i);
                assert(anomalies@.contains(i));
                assert forall|x: usize| an0.contains(x) implies anomalies@.contains(x) by {
                    let t = choose|t: int| 0 <= t < an0.len() && an0[t] == x;
                    assert(anomalies@[t] == x);
                }
                assert forall|x: usize| anomalies@.contains(x) implies (x < i + 1
                    && known_with_id_mismatch(
                    added@,
                    augmented(nv[x as int], add_generated, dv),
                )) by {
                    let t = choose|t: int| 0 <= t < anomalies@.len() && anomalies@[t] == x;
                    if t < an0.len() {
                        assert(an0[t] == x);
                        assert(an0.contains(x));
                    } else {
                        assert(x == i);
                    }
                }
            }
        }
        if !known {
            let ghost out_before = out@;
            out.push(note);
            proof {
                assert(out@.map_values(|n: Note| n@) =~= out_before.map_values(|n: Note| n@)
                    + seq![augmented(nv[i as int], add_generated, dv)]);
                assert forall|rest: Seq<NoteV>|
                    true implies (out_before.map_values(|n: Note| n@) + (seq![
                    augmented(nv[i as int], add_generated, dv),
                ] + rest)) =~= (out@.map_values(|n: Note| n@) + rest) by {}
            }
        }
        i += 1;
    }
    proof {
        assert(out@.map_values(|n: Note| n@) + Seq::<NoteV>::empty() =~= out@.map_values(
            |n: Note| n@,
        ));
    }
    Ok((out, anomalies))
}

/// When every extracted note validates and an equal note is already tracked
/// for each (after tag augmentation), a pass selects nothing: the update
/// performs no add-notes call, though the caller still refreshes the remote
/// deck and model state beforehand.
pub proof fn lemma_all_known_selects_none(
    models: Seq<(Seq<char>, Seq<Seq<char>>)>,
    added: Seq<NoteV>,
    notes: Seq<NoteV>,
    add_generated: bool,
    date: Option<Seq<char>>,
    i: int,
)
    requires
        0 <= i <= notes.len(),
        forall|k: int|
            i <= k < notes.len() ==> spec_validate(#[trigger] notes[k], models) is Valid
                && known_note(added, augmented(notes[k], add_generated, date)),
    ensures
        spec_select(models, added, notes, add_generated, date, i) == Ok::<
            Seq<NoteV>,
            ValidationV,
        >(Seq::<NoteV>::empty()),
    decreases notes.len() - i,
{
    if i < notes.len() {
        lemma_all_known_selects_none(models, added, notes, add_generated, date, i + 1);
    }
}

/// How many of a batch's results carry an id, i.e. were actually created.
pub open spec fn count_some(ids: Seq<Option<usize>>) -> int
    decreases ids.len(),
{
    if ids.len() == 0 {
        0
    } else {
        count_some(ids.drop_last()) + if ids.last() is Some {
            1int
        } else {
            0int
        }
    }
}

impl State {
    /// Records the outcome of one batched add-notes call: counts how many
    /// notes were created and how many the remote judged duplicates, and
    /// appends every submitted note — duplicates too — to the tracked list,
    /// so later passes see them as already present.
    pub fn record_results(&mut self, notes: &Vec<Note>, ids: &Vec<Option<usize>>) -> (r: (
        usize,
        usize,
    ))
        requires
            ids@.len() == notes@.len(),
            old(self).added_notes@.len() + notes@.len() <= usize::MAX,
        ensures
            r.0 == count_some(ids@),
            r.1 == ids@.len() - count_some(ids@),
            r.0 + r.1 == ids@.len(),
            final(self).added_notes@.len() == old(self).added_notes@.len() + notes@.len(),
            forall|k: int|
                0 <= k < old(self).added_notes@.len() ==> final(self).added_notes@[k] == old(
                    self,
                ).added_notes@[k],
            forall|k: int|
                0 <= k < notes@.len() ==> {
                    let w = #[trigger] final(self).added_notes@[old(self).added_notes@.len() + k];
                    &&& w.note@ == notes@[k]@
                    &&& w.id == ids@[k]
                    &&& w.question is None
                },
            final(self).deck_names == old(self).deck_names,
            final(self).models == old(self).models,
            final(self).last_hashes == old(self).last_hashes,
    {
        let ghost base = self.added_notes@.len() as int;
        let mut added_count: usize = 0;
        let mut dup_count: usize = 0;
        let mut k: usize = 0;
        while k < notes.len()
            invariant
                k <= notes@.len(),
                ids@.len() == notes@.len(),
                base == old(self).added_notes@.len(),
                base + notes@.len() <= usize::MAX,
                added_count == count_some(ids@.subrange(0, k as int)),
                added_count + dup_count == k,
                self.added_notes@.len() == base + k,
                forall|t: int|
                    0 <= t < base ==> self.added_notes@[t] == old(self).added_notes@[t],
                forall|t: int|
                    0 <= t < k ==> {
                        let w = #[trigger] self.added_notes@[base + t];
                        &&& w.note@ == notes@[t]@
                        &&& w.id == ids@[t]
                        &&& w.question is None
                    },
                self.deck_names == old(self).deck_names,
                self.models == old(self).models,
                self.last_hashes == old(self).last_hashes,
            decreases notes@.len() - k,
        {
            let id = match &ids[k] {
                Some(v) => Some(*v),
                None => None,
            };
            if id.is_some() {
                added_count += 1;
            } else {
                dup_count += 1;
            }
            self.added_notes.push(NoteWithInfo { note: notes[k].duplicate(), id, question: None });
            proof {
                assert(ids@.subrange(0, k + 1).drop_last() =~= ids@.subrange(0, k as int));
                assert(ids@.subrange(0, k + 1).last() == ids@[k as int]);
            }
            k += 1;
        }
        proof {
            assert(ids@.subrange(0, ids@.len() as int) =~= ids@);
        }
        (added_count, dup_count)
    }

    /// Whether the remote application knows a deck of this name.
    pub fn deck_is_known(&self, deck: &str) -> (r: bool)
        ensures
            r == self.decks_v().contains(deck@),
    {
        contains_str(&self.deck_names, deck)
    }

    /// Rejects a batch bound for a deck the remote application does not
    /// know; such a batch aborts the whole update.
    pub fn check_deck(&self, deck: &str) -> (r: Result<(), UpdateError>)
        ensures
            (r is Ok) == self.decks_v().contains(deck@),
            r matches Err(e) ==> (e matches UpdateError::UnknownDeck(d) && d@ == deck@),
    {
        if self.deck_is_known(deck) {
            Ok(())
        } else {
            Err(UpdateError::UnknownDeck(deck.to_owned()))
        }
    }
}

/// Mathematical verdict of planning the uploads of one note.
pub enum PlanErrorV {
    MissingPage(int),
    MissingId,
}

/// The uploads one rendered page asks for: the requested media file name and
/// the encoded image data, light before dark. A missing page, then a missing
/// note id, then a missing dark page abort the plan, in that order.
pub open spec fn spec_page_plan(
    id: Option<Seq<char>>,
    p: usize,
    out: ThemedCompileOutput,
) -> Result<Seq<(Seq<char>, Seq<char>)>, PlanErrorV> {
    match out {
        ThemedCompileOutput::Light(o) => spec_single_page_plan(id, p, o),
        ThemedCompileOutput::Dark(o) => spec_single_page_plan(id, p, o),
        ThemedCompileOutput::Both { light, dark } => match light.spec_page(p) {
            None => Err(PlanErrorV::MissingPage(p as int)),
            Some(lp) => match id {
                None => Err(PlanErrorV::MissingId),
                Some(idv) => match dark.spec_page(p) {
                    None => Err(PlanErrorV::MissingPage(p as int)),
                    Some(dp) => Ok(
                        seq![
                            (spec_media_filename(idv, p as nat), lp.1@),
                            (spec_media_filename(idv, p as nat), dp.1@),
                        ],
                    ),
                },
            },
        },
    }
}

pub open spec fn spec_single_page_plan(
    id: Option<Seq<char>>,
    p: usize,
    o: CompileOutput,
) -> Result<Seq<(Seq<char>, Seq<char>)>, PlanErrorV> {
    match o.spec_page(p) {
        None => Err(PlanErrorV::MissingPage(p as int)),
        Some(pe) => match id {
            None => Err(PlanErrorV::MissingId),
            Some(idv) => Ok(seq![(spec_media_filename(idv, p as nat), pe.1@)]),
        },
    }
}

/// The uploads of `n` consecutive pages starting at `p`.
pub open spec fn spec_pages_plan(
    id: Option<Seq<char>>,
    p: int,
    n: nat,
    out: ThemedCompileOutput,
) -> Result<Seq<(Seq<char>, Seq<char>)>, PlanErrorV>
    decreases n,
{
    if n == 0 {
        Ok(Seq::<(Seq<char>, Seq<char>)>::empty())
    } else {
        match spec_page_plan(id, p as usize, out) {
            Err(e) => Err(e),
            Ok(s) => match spec_pages_plan(id, p + 1, (n - 1) as nat, out) {
                Err(e) => Err(e),
                Ok(rest) => Ok(s + rest),
            },
        }
    }
}

/// How many pages an inclusive range holds.
pub open spec fn range_len(ps: int, pe: int) -> nat {
    if pe >= ps {
        (pe + 1 - ps) as nat
    } else {
        0
    }
}

/// The uploads of one field: only content fields render pages.
pub open spec fn spec_field_plan(
    f: FieldV,
    id: Option<Seq<char>>,
    out: ThemedCompileOutput,
) -> Result<Seq<(Seq<char>, Seq<char>)>, PlanErrorV> {
    match f {
        FieldV::Content { page_start, page_end, .. } => spec_pages_plan(
            id,
            page_start as int,
            range_len(page_start as int, page_end as int),
            out,
        ),
        _ => Ok(Seq::<(Seq<char>, Seq<char>)>::empty()),
    }
}

/// The uploads of a note's fields from position `i` on, in field order.
pub open spec fn spec_note_plan_from(
    fields: Seq<(Seq<char>, FieldV)>,
    i: int,
    id: Option<Seq<char>>,
    out: ThemedCompileOutput,
) -> Result<Seq<(Seq<char>, Seq<char>)>, PlanErrorV>
    decreases fields.len() - i when 0 <= i <= fields.len()
{
    if i >= fields.len() {
        Ok(Seq::<(Seq<char>, Seq<char>)>::empty())
    } else {
        match spec_field_plan(fields[i].1, id, out) {
            Err(e) => Err(e),
            Ok(s) => match spec_note_plan_from(fields, i + 1, id, out) {
                Err(e) => Err(e),
                Ok(rest) => Ok(s + rest),
            },
        }
    }
}

/// Every upload one note asks for, in the order they are performed.
pub open spec fn spec_note_plan(n: NoteV, out: ThemedCompileOutput) -> Result<
    Seq<(Seq<char>, Seq<char>)>,
    PlanErrorV,
> {
    spec_note_plan_from(n.fields, 0, n.id, out)
}

/// Every content page range ends below the machine limit, so that inclusive
/// iteration terminates.
pub open spec fn pages_bounded(n: NoteV) -> bool {
    forall|i: int|
        0 <= i < n.fields.len() ==> match (#[trigger] n.fields[i]).1 {
            FieldV::Content { page_end, .. } => page_end < usize::MAX,
            _ => true,
        }
}

/// One media upload the engine asks the caller to perform: the requested
/// file name and the base64-encoded image data.
#[derive(Debug, Clone)]
pub struct MediaRequest {
    pub filename: String,
    pub data: String,
}

pub open spec fn requests_v(v: Seq<MediaRequest>) -> Seq<(Seq<char>, Seq<char>)> {
    v.map_values(|m: MediaRequest| (m.filename@, m.data@))
}

#[verifier::loop_isolation(false)]
fn plan_page(id: &Option<String>, p: usize, output: &ThemedCompileOutput, out: &mut Vec<
    MediaRequest,
>) -> (r: Result<(), UpdateError>)
    ensures
        match r {
            Ok(()) => (spec_page_plan(id.deep_view(), p, *output) matches Ok(s) && requests_v(
                final(out)@,
            ) == requests_v(old(out)@) + s),
            Err(e) => *final(out) == *old(out) && ({
                let verdict = spec_page_plan(id.deep_view(), p, *output);
                ||| (verdict == Err::<Seq<(Seq<char>, Seq<char>)>, PlanErrorV>(
                    PlanErrorV::MissingPage(p as int),
                ) && (e matches UpdateError::MissingPage(q) && q == p))
                ||| (verdict == Err::<Seq<(Seq<char>, Seq<char>)>, PlanErrorV>(
                    PlanErrorV::MissingId,
                ) && e is MissingId)
            }),
        },
{
    match output {
        ThemedCompileOutput::Light(o) | ThemedCompileOutput::Dark(o) => {
            let pe = match o.page(p) {
                None => {
                    return Err(UpdateError::MissingPage(p));
                },
                Some(pe) => pe,
            };
            let idv = match id {
                None => {
                    return Err(UpdateError::MissingId);
                },
                Some(idv) => idv,
            };
            let name = media_filename(idv.as_str(), p);
            out.push(MediaRequest { filename: name, data: pe.1.clone() });
            proof {
                assert(requests_v(out@) =~= requests_v(old(out)@) + spec_page_plan(
                    id.deep_view(),
                    p,
                    *output,
                )->Ok_0);
            }
            Ok(())
        },
        ThemedCompileOutput::Both { light, dark } => {
            let lp = match light.page(p) {
                None => {
                    return Err(UpdateError::MissingPage(p));
                },
                Some(lp) => lp,
            };
            let idv = match id {
                None => {
                    return Err(UpdateError::MissingId);
                },
                Some(idv) => idv,
            };
            let dp = match dark.page(p) {
                None => {
                    return Err(UpdateError::MissingPage(p));
                },
                Some(dp) => dp,
            };
            let lname = media_filename(idv.as_str(), p);
            let dname = media_filename(idv.as_str(), p);
            out.push(MediaRequest { filename: lname, data: lp.1.clone() });
            out.push(MediaRequest { filename: dname, data: dp.1.clone() });
            proof {
                assert(requests_v(out@) =~= requests_v(old(out)@) + spec_page_plan(
                    id.deep_view(),
                    p,
                    *output,
                )->Ok_0);
            }
            Ok(())
        },
    }
}

/// Lists, in order, every media upload the note's content fields ask for:
/// per field, per page of its inclusive range, the light rendering and — if
/// both themes were rendered — the dark one, under the note's own file name
/// for that page. Fails on a page the compiler did not produce, or on a
/// content field of a note without a pre-assigned id.
#[verifier::loop_isolation(false)]
pub fn plan_note_uploads(note: &Note, output: &ThemedCompileOutput) -> (r: Result<
    Vec<MediaRequest>,
    UpdateError,
>)
    requires
        note@.ranges_wf(),
        pages_bounded(note@),
    ensures
        match r {
            Ok(v) => spec_note_plan(note@, *output) == Ok::<
                Seq<(Seq<char>, Seq<char>)>,
                PlanErrorV,
            >(requests_v(v@)),
            Err(e) => ({
                let verdict = spec_note_plan(note@, *output);
                ||| (verdict matches Err(PlanErrorV::MissingPage(q)) && (e matches
                    UpdateError::MissingPage(qe) && qe == q))
                ||| (verdict == Err::<Seq<(Seq<char>, Seq<char>)>, PlanErrorV>(
                    PlanErrorV::MissingId,
                ) && e is MissingId)
            }),
        },
{
    let ghost fields_v = note@.fields;
    let ghost idv = note@.id;
    let mut out: Vec<MediaRequest> = Vec::new();
    let mut i: usize = 0;
    while i < note.fields.len()
        invariant
            i <= note.fields@.len(),
            spec_note_plan_from(fields_v, 0, idv, *output) == (match spec_note_plan_from(
                fields_v,
                i as int,
                idv,
                *output,
            ) {
                Ok(rest) => Ok::<Seq<(Seq<char>, Seq<char>)>, PlanErrorV>(
                    requests_v(out@) + rest,
                ),
                Err(e) => Err::<Seq<(Seq<char>, Seq<char>)>, PlanErrorV>(e),
            }),
        decreases note.fields@.len() - i,
    {
        match &note.fields[i].1 {
            Field::Content { page_start, page_end, .. } => {
                let ps = *page_start;
                let pe = *page_end;
                proof {
                    assert(fields_v[i as int].1 matches FieldV::Content { page_start: sps, page_end: spe, .. }
                        && sps == ps as nat && spe == pe as nat);
                    assert(spec_field_plan(fields_v[i as int].1, idv, *output) == spec_pages_plan(
                        idv,
                        ps as int,
                        range_len(ps as int, pe as int),
                        *output,
                    ));
                    assert(ps <= pe);
                }
                let mut p = ps;
                while p <= pe
                    invariant
                        ps <= p,
                        p <= pe + 1,
                        pe < usize::MAX,
                        0 <= i < fields_v.len(),
                        spec_note_plan_from(fields_v, 0, idv, *output) == (match (match
                            spec_pages_plan(idv, p as int, range_len(p as int, pe as int), *output) {
                            Err(e) => Err::<Seq<(Seq<char>, Seq<char>)>, PlanErrorV>(e),
                            Ok(s) => match spec_note_plan_from(
                                fields_v,
                                i as int + 1,
                                idv,
                                *output,
                            ) {
                                Err(e) => Err::<Seq<(Seq<char>, Seq<char>)>, PlanErrorV>(e),
                                Ok(rest) => Ok::<Seq<(Seq<char>, Seq<char>)>, PlanErrorV>(
                                    s + rest,
                                ),
                            },
                        }) {
                            Ok(rest2) => Ok::<Seq<(Seq<char>, Seq<char>)>, PlanErrorV>(
                                requests_v(out@) + rest2,
                            ),
                            Err(e) => Err::<Seq<(Seq<char>, Seq<char>)>, PlanErrorV>(e),
                        }),
                    decreases pe + 1 - p,
                {
                    let ghost out_before = out@;
                    match plan_page(&note.id, p, output, &mut out) {
                        Err(e) => {
                            return Err(e);
                        },
                        Ok(()) => {},
                    }
                    proof {
                        let s0 = spec_page_plan(idv, p, *output)->Ok_0;
                        if spec_pages_plan(idv, p as int + 1, range_len(p as int + 1, pe as int), *output) is Ok
                            && spec_note_plan_from(fields_v, i as int + 1, idv, *output) is Ok {
                            let rr = spec_pages_plan(idv, p as int + 1, range_len(p as int + 1, pe as int), *output)->Ok_0;
                            let rest = spec_note_plan_from(fields_v, i as int + 1, idv, *output)->Ok_0;
                            assert((requests_v(out_before) + ((s0 + rr) + rest)) =~= (
                            requests_v(out@) + (rr + rest)));
                        }
                    }
                    p += 1;
                }
                proof {
                    assert(spec_pages_plan(idv, p as int, range_len(p as int, pe as int), *output) == Ok::<
                        Seq<(Seq<char>, Seq<char>)>,
                        PlanErrorV,
                    >(Seq::<(Seq<char>, Seq<char>)>::empty()));
                }
            },
            _ => {
                proof {
                    assert(spec_field_plan(fields_v[i as int].1, idv, *output) == Ok::<
                        Seq<(Seq<char>, Seq<char>)>,
                        PlanErrorV,
                    >(Seq::<(Seq<char>, Seq<char>)>::empty()));
                }
            },
        }
        proof {
            assert forall|rest: Seq<(Seq<char>, Seq<char>)>| true implies (requests_v(out@)
                + (Seq::<(Seq<char>, Seq<char>)>::empty() + rest)) =~= (requests_v(out@)
                + rest) by {}
        }
        i += 1;
    }
    proof {
        assert(requests_v(out@) + Seq::<(Seq<char>, Seq<char>)>::empty() =~= requests_v(out@));
    }
    Ok(out)
}

/// Names consumed per page: two with both themes, one otherwise.
pub open spec fn spec_nt(both: bool) -> int {
    if both {
        2
    } else {
        1
    }
}

/// The markup of one rendered page, given the server-assigned file names
/// from position `j` on.
pub open spec fn spec_page_markup(
    names: Seq<Seq<char>>,
    j: int,
    both: bool,
    alt: Option<Seq<char>>,
) -> Seq<char> {
    if both {
        spec_themed_img_tags(names[j], names[j + 1], alt)
    } else {
        spec_img_tag(names[j], alt)
    }
}

/// The markup of `n` consecutive pages; `first` says whether the first of
/// them is the field's first page, which alone carries the field's text as
/// accessibility label.
pub open spec fn spec_pages_markup(
    content: Seq<char>,
    first: bool,
    n: nat,
    names: Seq<Seq<char>>,
    j: int,
    both: bool,
) -> Seq<char>
    decreases n,
{
    if n == 0 {
        Seq::<char>::empty()
    } else {
        spec_page_markup(
            names,
            j,
            both,
            if first {
                Some(content)
            } else {
                None
            },
        ) + spec_pages_markup(content, false, (n - 1) as nat, names, j + spec_nt(both), both)
    }
}

/// How many assigned names one field consumes.
pub open spec fn spec_field_count(f: FieldV, both: bool) -> int {
    match f {
        FieldV::Content { page_start, page_end, .. } => range_len(
            page_start as int,
            page_end as int,
        ) * spec_nt(both),
        _ => 0,
    }
}

/// How many assigned names the fields from position `i` on consume.
pub open spec fn spec_fields_count_from(
    fields: Seq<(Seq<char>, FieldV)>,
    i: int,
    both: bool,
) -> int
    decreases fields.len() - i when 0 <= i <= fields.len()
{
    if i >= fields.len() {
        0
    } else {
        spec_field_count(fields[i].1, both) + spec_fields_count_from(fields, i + 1, both)
    }
}

pub proof fn lemma_field_count_nonneg(f: FieldV, both: bool)
    ensures
        spec_field_count(f, both) >= 0,
{
}

pub proof fn lemma_fields_count_nonneg(fields: Seq<(Seq<char>, FieldV)>, i: int, both: bool)
    requires
        0 <= i <= fields.len(),
    ensures
        spec_fields_count_from(fields, i, both) >= 0,
    decreases fields.len() - i,
{
    if i < fields.len() {
        lemma_field_count_nonneg(fields[i].1, both);
        lemma_fields_count_nonneg(fields, i + 1, both);
    }
}

/// The resolved text of one field: literal fields pass their text through,
/// an empty field resolves to empty text, and a content field resolves to
/// the markup of its page range.
pub open spec fn spec_resolved_field(
    f: FieldV,
    names: Seq<Seq<char>>,
    j: int,
    both: bool,
) -> Seq<char> {
    match f {
        FieldV::Raw(t) => t,
        FieldV::Plain(t) => t,
        FieldV::Empty => Seq::<char>::empty(),
        FieldV::Content { content, page_start, page_end } => spec_pages_markup(
            content,
            true,
            range_len(page_start as int, page_end as int),
            names,
            j,
            both,
        ),
    }
}

/// The resolved (name, text) pairs of a note's fields from position `i` on,
/// consuming assigned names from position `j` on.
pub open spec fn spec_resolved_fields_from(
    fields: Seq<(Seq<char>, FieldV)>,
    i: int,
    names: Seq<Seq<char>>,
    j: int,
    both: bool,
) -> Seq<(Seq<char>, Seq<char>)>
    decreases fields.len() - i when 0 <= i <= fields.len()
{
    if i >= fields.len() {
        Seq::<(Seq<char>, Seq<char>)>::empty()
    } else {
        seq![(fields[i].0, spec_resolved_field(fields[i].1, names, j, both))]
            + spec_resolved_fields_from(
            fields,
            i + 1,
            names,
            j + spec_field_count(fields[i].1, both),
            both,
        )
    }
}

proof fn lemma_pages_plan_len(id: Option<Seq<char>>, p: int, n: nat, out: ThemedCompileOutput)
    ensures
        spec_pages_plan(id, p, n, out) matches Ok(s) ==> s.len() == n * spec_nt(out is Both),
    decreases n,
{
    if n > 0 {
        lemma_pages_plan_len(id, p + 1, (n - 1) as nat, out);
        let nt = spec_nt(out is Both);
        if spec_page_plan(id, p as usize, out) is Ok {
            let s0 = spec_page_plan(id, p as usize, out)->Ok_0;
            assert(s0.len() == nt);
            assert(nt + (n - 1) * nt == n * nt) by (nonlinear_arith);
        }
    }
}

/// A successful plan asks for exactly as many uploads as `resolve_note`
/// expects assigned names: handing over the server-assigned name of each
/// planned upload, in order, meets the resolution's precondition.
pub proof fn lemma_plan_matches_resolve(
    fields: Seq<(Seq<char>, FieldV)>,
    i: int,
    id: Option<Seq<char>>,
    out: ThemedCompileOutput,
)
    requires
        0 <= i <= fields.len(),
    ensures
        spec_note_plan_from(fields, i, id, out) matches Ok(s) ==> s.len()
            == spec_fields_count_from(fields, i, out is Both),
    decreases fields.len() - i,
{
    if i < fields.len() {
        lemma_plan_matches_resolve(fields, i + 1, id, out);
        match fields[i].1 {
            FieldV::Content { page_start, page_end, .. } => {
                lemma_pages_plan_len(
                    id,
                    page_start as int,
                    range_len(page_start as int, page_end as int),
                    out,
                );
            },
            _ => {},
        }
    }
}

/// A content field emits its image references page by page, in order: the
/// markup decomposes, at any page `k` of the range, into the chunks before
/// it, that page's own chunk, and the chunks after it. Only the very first
/// page's chunk carries the field's text as accessibility label; with both
/// themes each chunk holds a light-tagged and a dark-tagged reference.
pub proof fn lemma_pages_markup_chunks(
    content: Seq<char>,
    first: bool,
    n: nat,
    names: Seq<Seq<char>>,
    j: int,
    both: bool,
    k: int,
)
    requires
        0 <= k < n,
    ensures
        spec_pages_markup(content, first, n, names, j, both) == spec_pages_markup(
            content,
            first,
            k as nat,
            names,
            j,
            both,
        ) + spec_page_markup(
            names,
            j + k * spec_nt(both),
            both,
            if first && k == 0 {
                Some(content)
            } else {
                None
            },
        ) + spec_pages_markup(
            content,
            false,
            (n - k - 1) as nat,
            names,
            j + (k + 1) * spec_nt(both),
            both,
        ),
    decreases k,
{
    let nt = spec_nt(both);
    if k == 0 {
        assert(spec_pages_markup(content, first, 0, names, j, both) =~= Seq::<char>::empty());
        assert(Seq::<char>::empty() + spec_page_markup(
            names,
            j,
            both,
            if first {
                Some(content)
            } else {
                None
            },
        ) =~= spec_page_markup(
            names,
            j,
            both,
            if first {
                Some(content)
            } else {
                None
            },
        ));
    } else {
        lemma_pages_markup_chunks(content, false, (n - 1) as nat, names, j + nt, both, k - 1);
        let head = spec_page_markup(
            names,
            j,
            both,
            if first {
                Some(content)
            } else {
                None
            },
        );
        let pre = spec_pages_markup(content, false, (k - 1) as nat, names, j + nt, both);
        let chunk = spec_page_markup(names, j + nt + (k - 1) * nt, both, None);
        let post = spec_pages_markup(
            content,
            false,
            (n - k - 1) as nat,
            names,
            j + nt + k * nt,
            both,
        );
        assert(j + nt + (k - 1) * nt == j + k * nt);
        assert(j + nt + k * nt == j + (k + 1) * nt);
        assert(spec_pages_markup(content, first, k as nat, names, j, both) == head + pre);
        assert(head + (pre + chunk + post) =~= (head + pre) + chunk + post);
    }
}

/// Builds the note as it is submitted to the service: literal fields pass
/// their text through, empty fields become empty text, and each content
/// field becomes the image markup of its page range over the server-assigned
/// media file names, consumed in the order the uploads were planned.
#[verifier::loop_isolation(false)]
pub fn resolve_note(note: &Note, both: bool, assigned: &Vec<String>) -> (r: ApiNote)
    requires
        note@.ranges_wf(),
        pages_bounded(note@),
        assigned@.len() == spec_fields_count_from(note@.fields, 0, both),
    ensures
        r.deck_name@ == note@.deck,
        r.model_name@ == note@.model,
        r.tags@.map_values(|t: String| t@) == note@.tags,
        r.fields@.map_values(|p: (String, String)| (p.0@, p.1@)) == spec_resolved_fields_from(
            note@.fields,
            0,
            assigned@.map_values(|s: String| s@),
            0,
            both,
        ),
        r.audio matches SingleOrMulti::Multi(v) && v@.len() == 0,
        r.video matches SingleOrMulti::Multi(v) && v@.len() == 0,
        r.picture matches SingleOrMulti::Multi(v) && v@.len() == 0,
{
    let ghost fields_v = note@.fields;
    let ghost names = assigned@.map_values(|s: String| s@);
    let n_assigned: usize = assigned.len();
    proof {
        assert(n_assigned == assigned@.len());
    }
    let mut fields: Vec<(String, String)> = Vec::new();
    let mut j: usize = 0;
    let mut i: usize = 0;
    while i < note.fields.len()
        invariant
            i <= note.fields@.len(),
            j as int + spec_fields_count_from(fields_v, i as int, both) == assigned@.len(),
            spec_resolved_fields_from(fields_v, 0, names, 0, both) == fields@.map_values(
                |p: (String, String)| (p.0@, p.1@),
            ) + spec_resolved_fields_from(fields_v, i as int, names, j as int, both),
        decreases note.fields@.len() - i,
    {
        let ghost j0 = j as int;
        let ghost fields_before = fields@;
        let name = note.fields[i].0.clone();
        match &note.fields[i].1 {
            Field::Raw(v) => {
                fields.push((name, v.clone()));
            },
            Field::Plain { plain } => {
                fields.push((name, plain.clone()));
            },
            Field::Empty => {
                fields.push((name, String::new()));
            },
            Field::Content { content, page_start, page_end } => {
                let ps = *page_start;
                let pe = *page_end;
                proof {
                    assert(fields_v[i as int].1 matches FieldV::Content {
                        page_start: sps,
                        page_end: spe,
                        content: sc,
                    } && sps == ps as nat && spe == pe as nat && sc == content@);
                    lemma_fields_count_nonneg(fields_v, i as int + 1, both);
                    assert(ps <= pe);
                }
                let mut text = String::new();
                let mut p = ps;
                while p <= pe
                    invariant
                        ps <= p,
                        p <= pe + 1,
                        pe < usize::MAX,
                        0 <= i < fields_v.len(),
                        j as int == j0 + (p - ps) * spec_nt(both),
                        j as int + range_len(p as int, pe as int) * spec_nt(both)
                            + spec_fields_count_from(fields_v, i as int + 1, both)
                            == assigned@.len(),
                        spec_pages_markup(
                            content@,
                            true,
                            range_len(ps as int, pe as int),
                            names,
                            j0,
                            both,
                        ) == text@ + spec_pages_markup(
                            content@,
                            p == ps,
                            range_len(p as int, pe as int),
                            names,
                            j as int,
                            both,
                        ),
                    decreases pe + 1 - p,
                {
                    let ghost text_before = text@;
                    let ghost jb = j as int;
                    let alt_opt: Option<&String> = if p == ps {
                        Some(content)
                    } else {
                        None
                    };
                    proof {
                        lemma_fields_count_nonneg(fields_v, i as int + 1, both);
                        assert(range_len(p as int, pe as int) >= 1);
                        assert(range_len(p as int, pe as int) * spec_nt(both) >= spec_nt(
                            both,
                        ));
                        assert(j as int + spec_nt(both) <= assigned@.len());
                    }
                    if both {
                        let t = themed_img_tags(
                            assigned[j].as_str(),
                            assigned[j + 1].as_str(),
                            alt_opt,
                        );
                        text.append(t.as_str());
                        j += 2;
                    } else {
                        let t = img_tag(assigned[j].as_str(), alt_opt);
                        text.append(t.as_str());
                        j += 1;
                    }
                    proof {
                        assert(names[jb] == assigned@[jb]@);
                        if both {
                            assert(names[jb + 1] == assigned@[jb + 1]@);
                        }
                        assert(text@ =~= text_before + spec_page_markup(
                            names,
                            jb,
                            both,
                            if p == ps {
                                Some(content@)
                            } else {
                                None
                            },
                        ));
                        assert(spec_pages_markup(
                            content@,
                            p == ps,
                            range_len(p as int, pe as int),
                            names,
                            jb,
                            both,
                        ) == spec_page_markup(
                            names,
                            jb,
                            both,
                            if p == ps {
                                Some(content@)
                            } else {
                                None
                            },
                        ) + spec_pages_markup(
                            content@,
                            false,
                            range_len(p + 1, pe as int),
                            names,
                            jb + spec_nt(both),
                            both,
                        ));
                        assert((text_before + (spec_page_markup(
                            names,
                            jb,
                            both,
                            if p == ps {
                                Some(content@)
                            } else {
                                None
                            },
                        ) + spec_pages_markup(
                            content@,
                            false,
                            range_len(p + 1, pe as int),
                            names,
                            jb + spec_nt(both),
                            both,
                        ))) =~= (text@ + spec_pages_markup(
                            content@,
                            false,
                            range_len(p + 1, pe as int),
                            names,
                            jb + spec_nt(both),
                            both,
                        )));
                    }
                    p += 1;
                }
                proof {
                    assert(range_len(p as int, pe as int) == 0);
                    assert(text@ + Seq::<char>::empty() =~= text@);
                }
                proof {
                    assert(spec_resolved_field(fields_v[i as int].1, names, j0, both) == text@);
                }
                fields.push((name, text));
            },
        }
        proof {
            assert(fields@.map_values(|p: (String, String)| (p.0@, p.1@)) =~= fields_before
                .map_values(|p: (String, String)| (p.0@, p.1@)) + seq![
                (fields_v[i as int].0, spec_resolved_field(fields_v[i as int].1, names, j0, both)),
            ]);
            assert(j as int == j0 + spec_field_count(fields_v[i as int].1, both));
            let rest = spec_resolved_fields_from(fields_v, i as int + 1, names, j as int, both);
            assert((fields_before.map_values(|p: (String, String)| (p.0@, p.1@)) + (seq![
                (fields_v[i as int].0, spec_resolved_field(fields_v[i as int].1, names, j0, both)),
            ] + rest)) =~= (fields@.map_values(|p: (String, String)| (p.0@, p.1@)) + rest));
        }
        i += 1;
    }
    proof {
        assert(fields@.map_values(|p: (String, String)| (p.0@, p.1@)) + Seq::<
            (Seq<char>, Seq<char>),
        >::empty() =~= fields@.map_values(|p: (String, String)| (p.0@, p.1@)));
    }
    let mut tags: Vec<String> = Vec::new();
    let mut k: usize = 0;
    while k < note.tags.len()
        invariant
            k <= note.tags@.len(),
            tags@.len() == k,
            forall|t: int| 0 <= t < k ==> (#[trigger] tags@[t])@ == note.tags@[t]@,
        decreases note.tags@.len() - k,
    {
        tags.push(note.tags[k].clone());
        k += 1;
    }
    proof {
        assert(tags@.map_values(|t: String| t@) =~= note@.tags);
    }
    ApiNote {
        deck_name: note.deck.clone(),
        model_name: note.model.clone(),
        fields,
        tags,
        audio: SingleOrMulti::Multi(Vec::new()),
        video: SingleOrMulti::Multi(Vec::new()),
        picture: SingleOrMulti::Multi(Vec::new()),
    }
}

/// The kinds of filesystem events the watch loop distinguishes.
#[derive(Debug, Clone, Copy, PartialEq, Eq, Structural)]
pub enum WatchEvent {
    Access,
    Create,
    Modify,
    Remove,
    Other,
}

/// What the watch loop does for one event. Errors while updating are logged
/// and the loop continues; only the event channel closing ends it.
#[derive(Debug, Clone, Copy, PartialEq, Eq, Structural)]
pub enum WatchAction {
    /// Nothing: accesses are uninteresting.
    Ignore,
    /// Log that the file appeared although it must have existed already.
    WarnUnexpectedCreate,
    /// Run one update cycle.
    Update,
    /// Re-arm the watch on the same path, then update if the path is again a
    /// regular file, else log that it was removed.
    RearmAndUpdate,
    /// Log an unknown watcher event.
    WarnUnknown,
}

/// The watch loop's decision for one filesystem event.
pub fn watch_action(e: WatchEvent) -> (r: WatchAction)
    ensures
        r == match e {
            WatchEvent::Access => WatchAction::Ignore,
            WatchEvent::Create => WatchAction::WarnUnexpectedCreate,
            WatchEvent::Modify => WatchAction::Update,
            WatchEvent::Remove => WatchAction::RearmAndUpdate,
            WatchEvent::Other => WatchAction::WarnUnknown,
        },
{
    match e {
        WatchEvent::Access => WatchAction::Ignore,
        WatchEvent::Create => WatchAction::WarnUnexpectedCreate,
        WatchEvent::Modify => WatchAction::Update,
        WatchEvent::Remove => WatchAction::RearmAndUpdate,
        WatchEvent::Other => WatchAction::WarnUnknown,
    }
}

/// Relies on fasthash's metro 64-bit hash. Nothing is assumed of the value:
/// the hash may differ between builds, so the engine only ever compares
/// hashes it computed itself within one run.
#[verifier::external_body]
fn content_hash(content: &str) -> u64 {
    fasthash::metro::hash64(content.as_bytes())
}

impl State {
    /// Hashes a file's content and records it for the path: the first gate
    /// of an update cycle. Returns whether the content changed since the
    /// last observation — if not, the cycle ends here — and the hash that
    /// was recorded.
    pub fn observe_content(&mut self, path: &str, content: &str) -> (r: (bool, u64))
        requires
            assoc_unique(old(self).hashes_v()),
            old(self).last_hashes@.len() < usize::MAX,
        ensures
            r.0 == spec_changed(*old(self), path@, r.1),
            assoc_get(final(self).hashes_v(), path@) == Some(r.1),
            forall|k: Seq<char>|
                k != path@ ==> #[trigger] assoc_get(final(self).hashes_v(), k) == assoc_get(
                    old(self).hashes_v(),
                    k,
                ),
            assoc_unique(final(self).hashes_v()),
            !r.0 ==> *final(self) == *old(self),
            final(self).deck_names == old(self).deck_names,
            final(self).models == old(self).models,
            final(self).added_notes == old(self).added_notes,
    {
        let h = content_hash(content);
        let changed = self.register_content(path, h);
        (changed, h)
    }
}

/// The schema of a model to create remotely.
#[derive(Debug)]
pub struct CreateModelData {
    pub model_name: String,
    pub in_order_fields: Vec<String>,
    pub css: String,
    pub is_cloze: bool,
    /// One entry per card template, each a list of template-slot name and
    /// template text pairs.
    pub card_templates: Vec<Vec<(String, String)>>,
}

/// The stylesheet of the default model: centred text, and the light/dark
/// image classes shown only under the matching application theme.
pub fn default_model_css() -> (r: String)
    ensures
        r@
            == ".card {\n font-family: arial;\n font-size: 20px;\n text-align: center;\n color: black;\n background-color: white;\n}\n\n.darktheme {\n  display: none;\n}\n\n.nightMode .darktheme {\n  display: inline;\n}\n\n.nightMode .lighttheme {\n  display: none;\n}\n"@,
{
    ".card {\n font-family: arial;\n font-size: 20px;\n text-align: center;\n color: black;\n background-color: white;\n}\n\n.darktheme {\n  display: none;\n}\n\n.nightMode .darktheme {\n  display: inline;\n}\n\n.nightMode .lighttheme {\n  display: none;\n}\n".to_owned()
}

/// The default model: five ordered fields, not cloze, one card template
/// showing front and number, then the back after a separator.
pub fn default_model_data(model_name: String) -> (r: CreateModelData)
    ensures
        r.model_name@ == model_name@,
        r.in_order_fields@.len() == 5,
        r.in_order_fields@[0]@ == "front"@,
        r.in_order_fields@[1]@ == "back"@,
        r.in_order_fields@[2]@ == "proof"@,
        r.in_order_fields@[3]@ == "number"@,
        r.in_order_fields@[4]@ == "date"@,
        r.is_cloze == false,
        r.card_templates@.len() == 1,
        r.card_templates@[0]@.len() == 3,
        r.card_templates@[0]@[0].0@ == "Name"@ && r.card_templates@[0]@[0].1@
            == "front+number -> back"@,
        r.card_templates@[0]@[1].0@ == "Front"@ && r.card_templates@[0]@[1].1@
            == "{{front}} - {{number}}"@,
        r.card_templates@[0]@[2].0@ == "Back"@ && r.card_templates@[0]@[2].1@
            == "{{FrontSide}}\n\n<hr id=answer>\n\n{{back}}"@,
{
    let mut in_order_fields: Vec<String> = Vec::new();
    in_order_fields.push("front".to_owned());
    in_order_fields.push("back".to_owned());
    in_order_fields.push("proof".to_owned());
    in_order_fields.push("number".to_owned());
    in_order_fields.push("date".to_owned());
    let mut template: Vec<(String, String)> = Vec::new();
    template.push(("Name".to_owned(), "front+number -> back".to_owned()));
    template.push(("Front".to_owned(), "{{front}} - {{number}}".to_owned()));
    template.push(("Back".to_owned(), "{{FrontSide}}\n\n<hr id=answer>\n\n{{back}}".to_owned()));
    let mut card_templates: Vec<Vec<(String, String)>> = Vec::new();
    card_templates.push(template);
    CreateModelData {
        model_name,
        in_order_fields,
        css: default_model_css(),
        is_cloze: false,
        card_templates,
    }
}

/// All deck prefixes of the used decks, in order of first use.
pub open spec fn spec_expand_from(used: Seq<Seq<char>>, i: int) -> Seq<Seq<char>>
    decreases used.len() - i when 0 <= i <= used.len()
{
    if i >= used.len() {
        Seq::<Seq<char>>::empty()
    } else {
        crate::deck::spec_deck_prefixes(used[i]) + spec_expand_from(used, i + 1)
    }
}

/// First-occurrence filtering of the expanded decks: a deck already
/// available, or already listed, is not listed again.
pub open spec fn spec_missing_from(
    expanded: Seq<Seq<char>>,
    avail: Seq<Seq<char>>,
    i: int,
    acc: Seq<Seq<char>>,
) -> Seq<Seq<char>>
    decreases expanded.len() - i when 0 <= i <= expanded.len()
{
    if i >= expanded.len() {
        acc
    } else {
        let d = expanded[i];
        if avail.contains(d) || acc.contains(d) {
            spec_missing_from(expanded, avail, i + 1, acc)
        } else {
            spec_missing_from(expanded, avail, i + 1, acc.push(d))
        }
    }
}

/// The decks that must be created for the used deck paths: every ancestor
/// and the path itself, in order of first appearance, skipping decks the
/// remote application already has.
#[verifier::loop_isolation(false)]
pub fn decks_to_create(used: &Vec<String>, available: &Vec<String>) -> (r: Vec<String>)
    requires
        forall|i: int| 0 <= i < used@.len() ==> (#[trigger] used@[i])@.len() + 2 <= usize::MAX,
    ensures
        r@.map_values(|t: String| t@) == spec_missing_from(
            spec_expand_from(used@.map_values(|t: String| t@), 0),
            available@.map_values(|t: String| t@),
            0,
            Seq::<Seq<char>>::empty(),
        ),
{
    let ghost usedv = used@.map_values(|t: String| t@);
    let ghost availv = available@.map_values(|t: String| t@);
    let mut expanded: Vec<String> = Vec::new();
    let mut i: usize = 0;
    while i < used.len()
        invariant
            i <= used@.len(),
            spec_expand_from(usedv, 0) == expanded@.map_values(|t: String| t@)
                + spec_expand_from(usedv, i as int),
        decreases used@.len() - i,
    {
        let ghost before = expanded@.map_values(|t: String| t@);
        let mut ps = crate::deck::deck_prefixes(used[i].as_str());
        expanded.append(&mut ps);
        proof {
            assert(expanded@.map_values(|t: String| t@) =~= before + crate::deck::spec_deck_prefixes(
                usedv[i as int],
            ));
            if i as int + 1 <= usedv.len() {
                let rest = spec_expand_from(usedv, i as int + 1);
                assert((before + (crate::deck::spec_deck_prefixes(usedv[i as int]) + rest)) =~= (
                expanded@.map_values(|t: String| t@) + rest));
            }
        }
        i += 1;
    }
    proof {
        assert(expanded@.map_values(|t: String| t@) + Seq::<Seq<char>>::empty()
            =~= expanded@.map_values(|t: String| t@));
    }
    let ghost expandedv = expanded@.map_values(|t: String| t@);
    let mut out: Vec<String> = Vec::new();
    proof {
        assert(out@.map_values(|tt: String| tt@) =~= Seq::<Seq<char>>::empty());
    }
    let mut t: usize = 0;
    while t < expanded.len()
        invariant
            t <= expanded@.len(),
            expandedv == expanded@.map_values(|tt: String| tt@),
            spec_missing_from(expandedv, availv, 0, Seq::<Seq<char>>::empty())
                == spec_missing_from(expandedv, availv, t as int, out@.map_values(|tt: String| tt@)),
        decreases expanded@.len() - t,
    {
        let ghost out_before = out@.map_values(|tt: String| tt@);
        let d = &expanded[t];
        if !contains_str(available, d.as_str()) && !contains_str(&out, d.as_str()) {
            out.push(d.clone());
            proof {
                assert(out@.map_values(|tt: String| tt@) =~= out_before.push(d@));
            }
        }
        t += 1;
    }
    out
}

proof fn lemma_filter_single<A>(x: A, pred: spec_fn(A) -> bool)
    ensures
        seq![x].filter(pred) == if pred(x) {
            seq![x]
        } else {
            Seq::<A>::empty()
        },
{
    reveal(Seq::filter);
    let s = seq![x];
    assert(s.drop_last() =~= Seq::<A>::empty());
    assert(Seq::<A>::empty().filter(pred) =~= Seq::<A>::empty());
    if pred(x) {
        assert(s.filter(pred) =~= seq![x]);
    } else {
        assert(s.filter(pred) =~= Seq::<A>::empty());
    }
}

proof fn lemma_filter_none<A>(s: Seq<A>, pred: spec_fn(A) -> bool)
    requires
        forall|i: int| 0 <= i < s.len() ==> !pred(#[trigger] s[i]),
    ensures
        s.filter(pred) == Seq::<A>::empty(),
    decreases s.len(),
{
    reveal(Seq::filter);
    if s.len() > 0 {
        lemma_filter_none(s.drop_last(), pred);
        assert(s.filter(pred) =~= Seq::<A>::empty());
    }
}

/// One deck's batch: the notes bound for it and their resolved submissions,
/// pairwise aligned, in their original order.
#[derive(Debug)]
pub struct DeckGroup {
    pub deck: String,
    pub notes: Vec<Note>,
    pub api_notes: Vec<ApiNote>,
}

/// Groups the resolved notes by target deck. Each group holds exactly the
/// pairs whose note names its deck, in their original order; the groups'
/// decks are distinct, and every pair's deck has a group. The order of the
/// groups themselves is not fixed.
#[verifier::loop_isolation(false)]
pub fn group_by_deck(pairs: Vec<(Note, ApiNote)>) -> (r: Vec<DeckGroup>)
    ensures
        forall|a: int, b: int|
            0 <= a < b < r@.len() ==> (#[trigger] r@[a]).deck@ != (#[trigger] r@[b]).deck@,
        forall|a: int|
            0 <= a < r@.len() ==> {
                let g = #[trigger] r@[a];
                &&& g.notes@ == pairs@.filter(
                    |x: (Note, ApiNote)| x.0.deck@ == g.deck@,
                ).map_values(|x: (Note, ApiNote)| x.0)
                &&& g.api_notes@ == pairs@.filter(
                    |x: (Note, ApiNote)| x.0.deck@ == g.deck@,
                ).map_values(|x: (Note, ApiNote)| x.1)
                &&& g.notes@.len() >= 1
            },
        forall|u: int|
            0 <= u < pairs@.len() ==> exists|a: int|
                0 <= a < r@.len() && (#[trigger] r@[a]).deck@ == (#[trigger] pairs@[u]).0.deck@,
{
    broadcast use vstd::prelude::Seq::filter_distributes_over_add;

    let ghost pv = pairs@;
    let mut rs = pairs;
    let total = rs.len();
    proof {
        assert(pv.len() <= usize::MAX);
    }
    let mut groups: Vec<DeckGroup> = Vec::new();
    let mut t: usize = 0;
    while rs.len() > 0
        invariant
            t as int + rs@.len() == pv.len(),
            rs@ =~= pv.skip(t as int),
            forall|a: int, b: int|
                0 <= a < b < groups@.len() ==> (#[trigger] groups@[a]).deck@ != (
                #[trigger] groups@[b]).deck@,
            forall|a: int|
                0 <= a < groups@.len() ==> {
                    let g = #[trigger] groups@[a];
                    &&& g.notes@ == pv.take(t as int).filter(
                        |x: (Note, ApiNote)| x.0.deck@ == g.deck@,
                    ).map_values(|x: (Note, ApiNote)| x.0)
                    &&& g.api_notes@ == pv.take(t as int).filter(
                        |x: (Note, ApiNote)| x.0.deck@ == g.deck@,
                    ).map_values(|x: (Note, ApiNote)| x.1)
                    &&& g.notes@.len() >= 1
                },
            forall|u: int|
                0 <= u < t ==> exists|a: int|
                    0 <= a < groups@.len() && (#[trigger] groups@[a]).deck@ == (
                    #[trigger] pv[u]).0.deck@,
        decreases rs@.len(),
    {
        let x = rs.remove(0);
        proof {
            assert(x == pv[t as int]);
            assert(rs@ =~= pv.skip(t as int + 1));
            assert(pv.take(t as int + 1) =~= pv.take(t as int) + seq![pv[t as int]]);
        }
        let mut gi: usize = 0;
        let mut found = false;
        while gi < groups.len() && !found
            invariant
                gi <= groups@.len(),
                found ==> gi < groups@.len() && groups@[gi as int].deck@ == x.0.deck@,
                !found ==> forall|k: int| 0 <= k < gi ==> (#[trigger] groups@[k]).deck@ != x.0.deck@,
            decreases groups@.len() - gi + (if found { 0int } else { 1int }),
        {
            if crate::text::str_eq(groups[gi].deck.as_str(), x.0.deck.as_str()) {
                found = true;
            } else {
                gi += 1;
            }
        }
        let ghost groups_before = groups@;
        if found {
            let (n, a) = x;
            groups[gi].notes.push(n);
            groups[gi].api_notes.push(a);
            proof {
                let g_old = groups_before[gi as int];
                let g_new = groups@[gi as int];
                assert(g_new.deck == g_old.deck);
                assert forall|aa: int| 0 <= aa < groups@.len() implies {
                    let g = #[trigger] groups@[aa];
                    &&& g.notes@ == pv.take(t as int + 1).filter(
                        |x: (Note, ApiNote)| x.0.deck@ == g.deck@,
                    ).map_values(|x: (Note, ApiNote)| x.0)
                    &&& g.api_notes@ == pv.take(t as int + 1).filter(
                        |x: (Note, ApiNote)| x.0.deck@ == g.deck@,
                    ).map_values(|x: (Note, ApiNote)| x.1)
                    &&& g.notes@.len() >= 1
                } by {
                    let g = groups@[aa];
                    let pred = |x: (Note, ApiNote)| x.0.deck@ == g.deck@;
                    lemma_filter_single(pv[t as int], pred);
                    assert(pv.take(t as int + 1).filter(pred) == pv.take(t as int).filter(pred)
                        + seq![pv[t as int]].filter(pred));
                    if aa == gi {
                        assert(pred(pv[t as int]));
                        assert(g.notes@ =~= pv.take(t as int + 1).filter(pred).map_values(
                            |x: (Note, ApiNote)| x.0,
                        ));
                        assert(g.api_notes@ =~= pv.take(t as int + 1).filter(pred).map_values(
                            |x: (Note, ApiNote)| x.1,
                        ));
                    } else {
                        assert(groups@[aa] == groups_before[aa]);
                        assert(g.deck@ != groups_before[gi as int].deck@);
                        assert(!pred(pv[t as int]));
                        assert(pv.take(t as int + 1).filter(pred) =~= pv.take(t as int).filter(
                            pred,
                        ));
                    }
                }
                assert forall|u: int| 0 <= u < t + 1 implies exists|a: int|
                    0 <= a < groups@.len() && (#[trigger] groups@[a]).deck@ == (
                    #[trigger] pv[u]).0.deck@ by {
                    if u < t {
                        let a = choose|a: int|
                            0 <= a < groups_before.len() && (#[trigger] groups_before[a]).deck@
                                == pv[u].0.deck@;
                        assert(groups@[a].deck@ == pv[u].0.deck@);
                    } else {
                        assert(groups@[gi as int].deck@ == pv[t as int].0.deck@);
                    }
                }
            }
        } else {
            let (n, a) = x;
            let deck = n.deck.clone();
            let mut notes: Vec<Note> = Vec::new();
            let mut api_notes: Vec<ApiNote> = Vec::new();
            notes.push(n);
            api_notes.push(a);
            groups.push(DeckGroup { deck, notes, api_notes });
            proof {
                let g_new = groups@[groups@.len() - 1];
                assert forall|u: int| 0 <= u < t implies !((#[trigger] pv[u]).0.deck@
                    == g_new.deck@) by {
                    let aa = choose|aa: int|
                        0 <= aa < groups_before.len() && (#[trigger] groups_before[aa]).deck@
                            == pv[u].0.deck@;
                    assert(groups_before[aa].deck@ != g_new.deck@);
                }
                assert forall|aa: int| 0 <= aa < groups@.len() implies {
                    let g = #[trigger] groups@[aa];
                    &&& g.notes@ == pv.take(t as int + 1).filter(
                        |x: (Note, ApiNote)| x.0.deck@ == g.deck@,
                    ).map_values(|x: (Note, ApiNote)| x.0)
                    &&& g.api_notes@ == pv.take(t as int + 1).filter(
                        |x: (Note, ApiNote)| x.0.deck@ == g.deck@,
                    ).map_values(|x: (Note, ApiNote)| x.1)
                    &&& g.notes@.len() >= 1
                } by {
                    let g = groups@[aa];
                    let pred = |x: (Note, ApiNote)| x.0.deck@ == g.deck@;
                    lemma_filter_single(pv[t as int], pred);
                    assert(pv.take(t as int + 1).filter(pred) == pv.take(t as int).filter(pred)
                        + seq![pv[t as int]].filter(pred));
                    if aa == groups@.len() - 1 {
                        assert forall|u: int| 0 <= u < pv.take(t as int).len() implies !pred(
                            #[trigger] pv.take(t as int)[u],
                        ) by {
                            assert(pv.take(t as int)[u] == pv[u]);
                        }
                        lemma_filter_none(pv.take(t as int), pred);
                        assert(pred(pv[t as int]));
                        assert(g.notes@ =~= pv.take(t as int + 1).filter(pred).map_values(
                            |x: (Note, ApiNote)| x.0,
                        ));
                        assert(g.api_notes@ =~= pv.take(t as int + 1).filter(pred).map_values(
                            |x: (Note, ApiNote)| x.1,
                        ));
                    } else {
                        assert(groups@[aa] == groups_before[aa]);
                        assert(!pred(pv[t as int]));
                        assert(pv.take(t as int + 1).filter(pred) =~= pv.take(t as int).filter(
                            pred,
                        ));
                    }
                }
                assert forall|u: int| 0 <= u < t + 1 implies exists|a: int|
                    0 <= a < groups@.len() && (#[trigger] groups@[a]).deck@ == (
                    #[trigger] pv[u]).0.deck@ by {
                    if u < t {
                        let a = choose|a: int|
                            0 <= a < groups_before.len() && (#[trigger] groups_before[a]).deck@
                                == pv[u].0.deck@;
                        assert(groups@[a].deck@ == pv[u].0.deck@);
                    } else {
                        assert(groups@[groups@.len() - 1].deck@ == pv[t as int].0.deck@);
                    }
                }
            }
        }
        t += 1;
    }
    proof {
        assert(pv.take(t as int) =~= pv);
    }
    groups
}

/// How many cards the stored notes before index `i` reference in total.
pub open spec fn spec_card_offset(notes: Seq<crate::api::NoteInfo>, i: int) -> int
    decreases i when 0 <= i
{
    if i <= 0 {
        0
    } else {
        spec_card_offset(notes, i - 1) + notes[i - 1].cards@.len()
    }
}

pub proof fn lemma_card_offset_mono(notes: Seq<crate::api::NoteInfo>, i: int, j: int)
    requires
        0 <= i <= j,
    ensures
        spec_card_offset(notes, i) <= spec_card_offset(notes, j),
    decreases j - i,
{
    if i < j {
        lemma_card_offset_mono(notes, i, j - 1);
    }
}

/// The value of the first stored field named `id`, if any.
pub open spec fn spec_find_id(
    fields: Seq<(String, crate::api::NoteInfoField)>,
    i: int,
) -> Option<Seq<char>>
    decreases fields.len() - i when 0 <= i <= fields.len()
{
    if i >= fields.len() {
        None
    } else if fields[i].0@ == "id"@ {
        Some(fields[i].1.value@)
    } else {
        spec_find_id(fields, i + 1)
    }
}

/// Rebuilds the tracked notes from what the service reports: each stored
/// note with its fields taken as raw text, its deck read off its first
/// card, its display string off its last card, and its document id off a
/// field named `id`, if one exists. The cards are the stored notes' cards,
/// flattened in order; every note has at least one card and all cards of
/// one note sit in one deck — the caller checks this before calling, as
/// the service guarantees it.
#[verifier::loop_isolation(false)]
pub fn notes_from_info(notes: &Vec<crate::api::NoteInfo>, cards: &Vec<crate::api::CardInfo>) -> (r:
    Vec<NoteWithInfo>)
    requires
        cards@.len() == spec_card_offset(notes@, notes@.len() as int),
        forall|i: int| 0 <= i < notes@.len() ==> (#[trigger] notes@[i]).cards@.len() >= 1,
        forall|i: int, a: int|
            #![trigger cards@[a], spec_card_offset(notes@, i)]
            0 <= i < notes@.len() && spec_card_offset(notes@, i) <= a < spec_card_offset(
                notes@,
                i + 1,
            ) ==> cards@[a].deck_name@ == cards@[spec_card_offset(notes@, i)].deck_name@,
    ensures
        r@.len() == notes@.len(),
        forall|i: int|
            0 <= i < notes@.len() ==> {
                let w = #[trigger] r@[i];
                let off = spec_card_offset(notes@, i);
                &&& w.id == Some(notes@[i].note_id)
                &&& (w.question matches Some(q) && q@ == cards@[off + notes@[i].cards@.len()
                    - 1].question@)
                &&& w.note@.deck == cards@[off].deck_name@
                &&& w.note@.model == notes@[i].model_name@
                &&& w.note@.tags == notes@[i].tags@.map_values(|t: String| t@)
                &&& w.note@.fields == notes@[i].fields@.map_values(
                    |p: (String, crate::api::NoteInfoField)| (p.0@, FieldV::Raw(p.1.value@)),
                )
                &&& w.note@.id == spec_find_id(notes@[i].fields@, 0)
            },
{
    let mut out: Vec<NoteWithInfo> = Vec::new();
    let mut c: usize = 0;
    let mut i: usize = 0;
    let n_cards = cards.len();
    while i < notes.len()
        invariant
            i <= notes@.len(),
            c == spec_card_offset(notes@, i as int),
            out@.len() == i,
            forall|k: int|
                0 <= k < i ==> {
                    let w = #[trigger] out@[k];
                    let off = spec_card_offset(notes@, k);
                    &&& w.id == Some(notes@[k].note_id)
                    &&& (w.question matches Some(q) && q@ == cards@[off + notes@[k].cards@.len()
                        - 1].question@)
                    &&& w.note@.deck == cards@[off].deck_name@
                    &&& w.note@.model == notes@[k].model_name@
                    &&& w.note@.tags == notes@[k].tags@.map_values(|t: String| t@)
                    &&& w.note@.fields == notes@[k].fields@.map_values(
                        |p: (String, crate::api::NoteInfoField)| (p.0@, FieldV::Raw(p.1.value@)),
                    )
                    &&& w.note@.id == spec_find_id(notes@[k].fields@, 0)
                },
        decreases notes@.len() - i,
    {
        let info = &notes[i];
        let seg = info.cards.len();
        proof {
            assert(spec_card_offset(notes@, i as int + 1) == c + seg);
            lemma_card_offset_mono(notes@, i as int + 1, notes@.len() as int);
            assert(c + seg <= cards@.len());
        }
        let deck = cards[c].deck_name.clone();
        let question = cards[c + seg - 1].question.clone();
        let mut id: Option<String> = None;
        let mut f: usize = 0;
        let mut found = false;
        while f < info.fields.len() && !found
            invariant
                f <= info.fields@.len(),
                0 <= i < notes@.len(),
                info == &notes@[i as int],
                !found ==> id is None && spec_find_id(info.fields@, 0) == spec_find_id(
                    info.fields@,
                    f as int,
                ),
                found ==> (id matches Some(v) && Some(v@) == spec_find_id(info.fields@, 0)),
            decreases info.fields@.len() - f + (if found { 0int } else { 1int }),
        {
            if crate::text::str_eq(info.fields[f].0.as_str(), "id") {
                id = Some(info.fields[f].1.value.clone());
                found = true;
            } else {
                f += 1;
            }
        }
        proof {
            if !found {
                assert(spec_find_id(info.fields@, info.fields@.len() as int) is None);
            }
        }
        let mut fields: Vec<(String, Field)> = Vec::new();
        let mut k: usize = 0;
        while k < info.fields.len()
            invariant
                k <= info.fields@.len(),
                0 <= i < notes@.len(),
                info == &notes@[i as int],
                fields@.len() == k,
                forall|t: int|
                    0 <= t < k ==> (#[trigger] fields@[t]).0@ == info.fields@[t].0@
                        && fields@[t].1@ == FieldV::Raw(info.fields@[t].1.value@),
            decreases info.fields@.len() - k,
        {
            fields.push((info.fields[k].0.clone(), Field::Raw(info.fields[k].1.value.clone())));
            k += 1;
        }
        let mut tags: Vec<String> = Vec::new();
        let mut tk: usize = 0;
        while tk < info.tags.len()
            invariant
                tk <= info.tags@.len(),
                0 <= i < notes@.len(),
                info == &notes@[i as int],
                tags@.len() == tk,
                forall|t: int| 0 <= t < tk ==> (#[trigger] tags@[t])@ == info.tags@[t]@,
            decreases info.tags@.len() - tk,
        {
            tags.push(info.tags[tk].clone());
            tk += 1;
        }
        let note = Note { id, deck, model: info.model_name.clone(), fields, tags };
        proof {
            assert(note@.fields =~= notes@[i as int].fields@.map_values(
                |p: (String, crate::api::NoteInfoField)| (p.0@, FieldV::Raw(p.1.value@)),
            ));
            assert(note@.tags =~= notes@[i as int].tags@.map_values(|t: String| t@));
        }
        out.push(NoteWithInfo { note, id: Some(info.note_id), question: Some(question) });
        c += seg;
        i += 1;
    }
    out
}

} // verus!
