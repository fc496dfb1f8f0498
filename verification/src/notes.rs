use vstd::prelude::*;
use vstd::string::StringExecFns;

use crate::clock::now_secs;
use crate::json::Json;
use crate::json::JsonV;
use crate::json::arr_view;
use crate::json::obj_view;
use crate::json::obj_get;
use crate::json::spec_obj_get;
use crate::json::render_spec;
use crate::json::render_items_from;

verus! {

/// The persisted user-facing resource: a note with an opaque identifier and
/// second-resolution timestamps.
pub struct Note {
    pub id: String,
    pub title: String,
    pub content: String,
    pub created_at: u64,
    pub updated_at: u64,
}

/// Mathematical image of a `Note`.
pub struct NoteV {
    pub id: Seq<char>,
    pub title: Seq<char>,
    pub content: Seq<char>,
    pub created_at: u64,
    pub updated_at: u64,
}

impl View for Note {
    type V = NoteV;

    open spec fn view(&self) -> NoteV {
        NoteV {
            id: self.id@,
            title: self.title@,
            content: self.content@,
            created_at: self.created_at,
            updated_at: self.updated_at,
        }
    }
}

impl Note {
    /// Field-for-field copy.
    pub fn dup(&self) -> (r: Note)
        ensures
            r@ == self@,
    {
        Note {
            id: self.id.clone(),
            title: self.title.clone(),
            content: self.content.clone(),
            created_at: self.created_at,
            updated_at: self.updated_at,
        }
    }
}

pub open spec fn notes_view(s: Seq<Note>) -> Seq<NoteV> {
    Seq::new(s.len(), |i: int| s[i]@)
}

pub open spec fn opt_view(o: Option<String>) -> Option<Seq<char>> {
    match o {
        Option::Some(s) => Option::Some(s@),
        Option::None => Option::None,
    }
}

/// No two notes share an identifier.
pub open spec fn unique_ids(s: Seq<NoteV>) -> bool {
    forall|i: int, j: int| 0 <= i < j < s.len() ==> s[i].id != s[j].id
}

/// Every note was updated no earlier than it was created.
pub open spec fn times_ok(s: Seq<NoteV>) -> bool {
    forall|i: int| 0 <= i < s.len() ==> #[trigger] s[i].updated_at >= s[i].created_at
}

/// The first note carrying `id`, scanning front to back.
pub open spec fn spec_get(s: Seq<NoteV>, id: Seq<char>) -> Option<NoteV>
    decreases s.len(),
{
    if s.len() == 0 {
        Option::None
    } else if s.first().id == id {
        Option::Some(s.first())
    } else {
        spec_get(s.drop_first(), id)
    }
}

pub open spec fn contains_id(s: Seq<NoteV>, id: Seq<char>) -> bool {
    spec_get(s, id) is Some
}

/// All notes except those carrying `id`, in their stored order.
pub open spec fn spec_remove(s: Seq<NoteV>, id: Seq<char>) -> Seq<NoteV>
    decreases s.len(),
{
    if s.len() == 0 {
        Seq::empty()
    } else if s.first().id == id {
        spec_remove(s.drop_first(), id)
    } else {
        seq![s.first()] + spec_remove(s.drop_first(), id)
    }
}

/// One note after an update: provided fields replace the old ones, absent
/// fields stay, the update time is refreshed but never pushed below the
/// previous update time — so it never falls, whatever the clock reads.
pub open spec fn upd_note(
    n: NoteV,
    title: Option<Seq<char>>,
    content: Option<Seq<char>>,
    now: u64,
) -> NoteV {
    NoteV {
        id: n.id,
        title: match title {
            Option::Some(t) => t,
            Option::None => n.title,
        },
        content: match content {
            Option::Some(c) => c,
            Option::None => n.content,
        },
        created_at: n.created_at,
        updated_at: if now >= n.updated_at {
            now
        } else {
            n.updated_at
        },
    }
}

/// The store after an update: notes carrying `id` are rewritten by
/// `upd_note`, all others stand as they were.
pub open spec fn spec_update(
    s: Seq<NoteV>,
    id: Seq<char>,
    title: Option<Seq<char>>,
    content: Option<Seq<char>>,
    now: u64,
) -> Seq<NoteV>
    decreases s.len(),
{
    if s.len() == 0 {
        Seq::empty()
    } else {
        let head = if s.first().id == id {
            upd_note(s.first(), title, content, now)
        } else {
            s.first()
        };
        seq![head] + spec_update(s.drop_first(), id, title, content, now)
    }
}

/// A note with `id` is in the store exactly when some position holds it.
pub proof fn lemma_get_exists(s: Seq<NoteV>, id: Seq<char>)
    ensures
        contains_id(s, id) <==> exists|k: int| 0 <= k < s.len() && s[k].id == id,
    decreases s.len(),
{
    if s.len() == 0 {
    } else if s.first().id == id {
        assert(s[0].id == id);
    } else {
        lemma_get_exists(s.drop_first(), id);
        if contains_id(s, id) {
            let k = choose|k: int| 0 <= k < s.drop_first().len() && s.drop_first()[k].id == id;
            assert(s[k + 1].id == id);
        }
        if exists|k: int| 0 <= k < s.len() && s[k].id == id {
            let k = choose|k: int| 0 <= k < s.len() && s[k].id == id;
            assert(s.drop_first()[k - 1].id == id);
        }
    }
}

/// Appending a note changes lookups only for identifiers not found before.
pub proof fn lemma_get_push(s: Seq<NoteV>, e: NoteV, id: Seq<char>)
    ensures
        spec_get(s.push(e), id) == if spec_get(s, id) is Some {
            spec_get(s, id)
        } else if e.id == id {
            Option::Some(e)
        } else {
            Option::<NoteV>::None
        },
    decreases s.len(),
{
    if s.len() == 0 {
        assert(s.push(e).first() == e);
        assert(s.push(e).drop_first() =~= Seq::<NoteV>::empty());
    } else {
        assert(s.push(e).first() == s.first());
        assert(s.push(e).drop_first() =~= s.drop_first().push(e));
        lemma_get_push(s.drop_first(), e, id);
    }
}

/// The concurrent, persisted note map: a sequence of notes with pairwise
/// distinct identifiers, the in-memory source of truth that the host mirrors
/// to a backing file after every mutation.
pub struct NoteStore {
    notes: Vec<Note>,
}

impl View for NoteStore {
    type V = Seq<NoteV>;

    closed spec fn view(&self) -> Seq<NoteV> {
        notes_view(self.notes@)
    }
}

impl NoteStore {
    /// Identifiers are unique and timestamps are ordered.
    pub open spec fn wf(&self) -> bool {
        unique_ids(self@) && times_ok(self@)
    }

    /// Full snapshot of the store, in its stable internal order.
    pub fn list(&self) -> (r: Vec<Note>)
        ensures
            r@.len() == self@.len(),
            forall|i: int| 0 <= i < r@.len() ==> r@[i]@ == self@[i],
    {
        let n = self.notes.len();
        let mut out: Vec<Note> = Vec::new();
        let mut i: usize = 0;
        while i < n
            invariant
                n == self.notes@.len(),
                i <= n,
                out@.len() == i,
                forall|k: int| 0 <= k < i ==> out@[k]@ == self@[k],
            decreases n - i,
        {
            out.push(self.notes[i].dup());
            i = i + 1;
        }
        out
    }

    /// Whether a note with this identifier is present.
    pub fn contains(&self, id: &str) -> (r: bool)
        ensures
            r == contains_id(self@, id@),
    {
        let ghost s = self@;
        proof {
            assert(s.skip(0) =~= s);
        }
        let n = self.notes.len();
        let mut i: usize = 0;
        while i < n
            invariant
                n == self.notes@.len(),
                s == self@,
                s.len() == n,
                i <= n,
                spec_get(s, id@) == spec_get(s.skip(i as int), id@),
            decreases n - i,
        {
            proof {
                assert(s.skip(i as int).first() == s[i as int]);
                assert(s.skip(i as int).drop_first() =~= s.skip(i + 1));
            }
            if crate::json::str_eq(self.notes[i].id.as_str(), id) {
                return true;
            }
            i = i + 1;
        }
        proof {
            assert(s.skip(n as int) =~= Seq::<NoteV>::empty());
        }
        false
    }

    /// The note carrying `id`, or nothing.
    pub fn get(&self, id: &str) -> (r: Option<Note>)
        ensures
            match r {
                Option::Some(n) => spec_get(self@, id@) == Option::Some(n@),
                Option::None => spec_get(self@, id@) is None,
            },
    {
        let ghost s = self@;
        proof {
            assert(s.skip(0) =~= s);
        }
        let n = self.notes.len();
        let mut i: usize = 0;
        while i < n
            invariant
                n == self.notes@.len(),
                s == self@,
                s.len() == n,
                i <= n,
                spec_get(s, id@) == spec_get(s.skip(i as int), id@),
            decreases n - i,
        {
            proof {
                assert(s.skip(i as int).first() == s[i as int]);
                assert(s.skip(i as int).drop_first() =~= s.skip(i + 1));
            }
            if crate::json::str_eq(self.notes[i].id.as_str(), id) {
                return Option::Some(self.notes[i].dup());
            }
            i = i + 1;
        }
        proof {
            assert(s.skip(n as int) =~= Seq::<NoteV>::empty());
        }
        Option::None
    }

    /// Inserts a freshly created note carrying the given identifier and
    /// creation time. Fails without changing anything exactly when the
    /// identifier is already taken.
    pub fn create_at(&mut self, id: String, title: String, content: String, now: u64) -> (r: Option<
        Note,
    >)
        requires
            old(self).wf(),
        ensures
            final(self).wf(),
            !contains_id(old(self)@, id@) ==> {
                &&& final(self)@ =~= old(self)@.push(
                    NoteV { id: id@, title: title@, content: content@, created_at: now, updated_at: now },
                )
                &&& r matches Option::Some(n) && n@ == (NoteV {
                    id: id@,
                    title: title@,
                    content: content@,
                    created_at: now,
                    updated_at: now,
                })
            },
            contains_id(old(self)@, id@) ==> r is None && final(self)@ =~= old(self)@,
    {
        if self.contains(id.as_str()) {
            return Option::None;
        }
        proof {
            lemma_get_exists(self@, id@);
        }
        let note = Note { id, title, content, created_at: now, updated_at: now };
        let copy = note.dup();
        let ghost before = self@;
        self.notes.push(note);
        proof {
            assert(self@ =~= before.push(copy@));
        }
        Option::Some(copy)
    }

    /// Creates a note under a fresh random identifier, stamped with the
    /// current time. Fails without changing anything only in the vanishing
    /// case that the generated identifier is already taken — so never on an
    /// empty store, where no identifier can collide.
    pub fn create(&mut self, title: String, content: String) -> (r: Option<Note>)
        requires
            old(self).wf(),
        ensures
            final(self).wf(),
            match r {
                Option::Some(n) => {
                    &&& !contains_id(old(self)@, n@.id)
                    &&& n@.title == title@
                    &&& n@.content == content@
                    &&& n@.created_at == n@.updated_at
                    &&& final(self)@ =~= old(self)@.push(n@)
                },
                Option::None => final(self)@ =~= old(self)@ && old(self)@.len() > 0,
            },
    {
        let id = fresh_id();
        let now = now_secs();
        self.create_at(id, title, content, now)
    }

    /// Rewrites the note carrying `id` with the provided fields and a new
    /// update time, returning the updated note; changes nothing and returns
    /// nothing when the identifier is unknown.
    pub fn update_at(
        &mut self,
        id: &str,
        title: Option<String>,
        content: Option<String>,
        now: u64,
    ) -> (r: Option<Note>)
        requires
            old(self).wf(),
        ensures
            final(self).wf(),
            final(self)@ =~= spec_update(old(self)@, id@, opt_view(title), opt_view(content), now),
            match r {
                Option::Some(n) => spec_get(old(self)@, id@) matches Option::Some(m) && n@
                    == upd_note(m, opt_view(title), opt_view(content), now),
                Option::None => spec_get(old(self)@, id@) is None,
            },
    {
        let ghost s = self@;
        let ghost tv = opt_view(title);
        let ghost cv = opt_view(content);
        proof {
            assert(s.skip(0) =~= s);
            assert(s.take(0) =~= Seq::<NoteV>::empty());
        }
        let n = self.notes.len();
        let mut out: Vec<Note> = Vec::new();
        let mut found: Option<Note> = Option::None;
        let mut i: usize = 0;
        while i < n
            invariant
                n == self.notes@.len(),
                s == self@,
                s.len() == n,
                i <= n,
                tv == opt_view(title),
                cv == opt_view(content),
                notes_view(out@) + spec_update(s.skip(i as int), id@, tv, cv, now) =~= spec_update(
                    s,
                    id@,
                    tv,
                    cv,
                    now,
                ),
                match found {
                    Option::Some(f) => spec_get(s.take(i as int), id@) matches Option::Some(m) && f@
                        == upd_note(m, tv, cv, now),
                    Option::None => spec_get(s.take(i as int), id@) is None,
                },
            decreases n - i,
        {
            proof {
                assert(s.skip(i as int).first() == s[i as int]);
                assert(s.skip(i as int).drop_first() =~= s.skip(i + 1));
                assert(s.take(i + 1) =~= s.take(i as int).push(s[i as int]));
                lemma_get_push(s.take(i as int), s[i as int], id@);
            }
            let cur = &self.notes[i];
            if crate::json::str_eq(cur.id.as_str(), id) {
                let new_title = match &title {
                    Option::Some(t) => t.clone(),
                    Option::None => cur.title.clone(),
                };
                let new_content = match &content {
                    Option::Some(c) => c.clone(),
                    Option::None => cur.content.clone(),
                };
                let new_updated = if now >= cur.updated_at {
                    now
                } else {
                    cur.updated_at
                };
                let updated = Note {
                    id: cur.id.clone(),
                    title: new_title,
                    content: new_content,
                    created_at: cur.created_at,
                    updated_at: new_updated,
                };
                proof {
                    assert(updated@ == upd_note(s[i as int], tv, cv, now));
                }
                if found.is_none() {
                    found = Option::Some(updated.dup());
                }
                let ghost outg = out@;
                out.push(updated);
                proof {
                    assert(notes_view(out@) =~= notes_view(outg).push(upd_note(s[i as int], tv, cv, now)));
                }
            } else {
                let ghost outg = out@;
                out.push(cur.dup());
                proof {
                    assert(notes_view(out@) =~= notes_view(outg).push(s[i as int]));
                }
            }
            i = i + 1;
        }
        proof {
            assert(s.skip(n as int) =~= Seq::<NoteV>::empty());
            assert(s.take(n as int) =~= s);
        }
        self.notes = out;
        proof {
            lemma_update_ids(s, id@, tv, cv, now);
        }
        found
    }

    /// Rewrites the note carrying `id`, stamping the current time.
    pub fn update(&mut self, id: &str, title: Option<String>, content: Option<String>) -> (r:
        Option<Note>)
        requires
            old(self).wf(),
        ensures
            final(self).wf(),
            exists|t: u64|
                {
                    &&& final(self)@ =~= spec_update(
                        old(self)@,
                        id@,
                        opt_view(title),
                        opt_view(content),
                        t,
                    )
                    &&& match r {
                        Option::Some(n) => spec_get(old(self)@, id@) matches Option::Some(m) && n@
                            == upd_note(m, opt_view(title), opt_view(content), t),
                        Option::None => spec_get(old(self)@, id@) is None,
                    }
                },
    {
        let ghost tv = opt_view(title);
        let ghost cv = opt_view(content);
        let now = now_secs();
        let r = self.update_at(id, title, content, now);
        proof {
            assert(self@ =~= spec_update(old(self)@, id@, tv, cv, now));
        }
        r
    }

    /// Removes the note carrying `id`; reports whether one was present.
    pub fn delete(&mut self, id: &str) -> (r: bool)
        requires
            old(self).wf(),
        ensures
            final(self).wf(),
            final(self)@ =~= spec_remove(old(self)@, id@),
            r == contains_id(old(self)@, id@),
    {
        let ghost s = self@;
        proof {
            assert(s.skip(0) =~= s);
            assert(s.take(0) =~= Seq::<NoteV>::empty());
        }
        let n = self.notes.len();
        let mut out: Vec<Note> = Vec::new();
        let mut removed = false;
        let mut i: usize = 0;
        while i < n
            invariant
                n == self.notes@.len(),
                s == self@,
                s.len() == n,
                i <= n,
                notes_view(out@) + spec_remove(s.skip(i as int), id@) =~= spec_remove(s, id@),
                removed == contains_id(s.take(i as int), id@),
            decreases n - i,
        {
            proof {
                assert(s.skip(i as int).first() == s[i as int]);
                assert(s.skip(i as int).drop_first() =~= s.skip(i + 1));
                assert(s.take(i + 1) =~= s.take(i as int).push(s[i as int]));
                lemma_get_push(s.take(i as int), s[i as int], id@);
            }
            let cur = &self.notes[i];
            if crate::json::str_eq(cur.id.as_str(), id) {
                removed = true;
            } else {
                let ghost outg = out@;
                out.push(cur.dup());
                proof {
                    assert(notes_view(out@) =~= notes_view(outg).push(s[i as int]));
                }
            }
            i = i + 1;
        }
        proof {
            assert(s.skip(n as int) =~= Seq::<NoteV>::empty());
            assert(s.take(n as int) =~= s);
        }
        self.notes = out;
        proof {
            lemma_remove_keeps(s, id@);
        }
        removed
    }
}

/// Identifiers and positions survive an update: the store keeps its length
/// and every slot keeps its identifier, so uniqueness is kept too.
pub proof fn lemma_update_ids(
    s: Seq<NoteV>,
    id: Seq<char>,
    title: Option<Seq<char>>,
    content: Option<Seq<char>>,
    now: u64,
)
    ensures
        spec_update(s, id, title, content, now).len() == s.len(),
        forall|k: int|
            0 <= k < s.len() ==> #[trigger] spec_update(s, id, title, content, now)[k].id
                == s[k].id,
        unique_ids(s) ==> unique_ids(spec_update(s, id, title, content, now)),
        times_ok(s) ==> times_ok(spec_update(s, id, title, content, now)),
    decreases s.len(),
{
    if s.len() == 0 {
    } else {
        lemma_update_ids(s.drop_first(), id, title, content, now);
        assert forall|k: int| 0 <= k < s.len() implies #[trigger] spec_update(
            s,
            id,
            title,
            content,
            now,
        )[k].id == s[k].id by {
            if k > 0 {
                assert(spec_update(s, id, title, content, now)[k] == spec_update(
                    s.drop_first(),
                    id,
                    title,
                    content,
                    now,
                )[k - 1]);
                assert(s.drop_first()[k - 1] == s[k]);
            }
        }
        if times_ok(s) {
            assert(times_ok(s.drop_first()));
            assert forall|k: int|
                0 <= k < s.len() implies #[trigger] spec_update(s, id, title, content, now)[k].updated_at
                >= spec_update(s, id, title, content, now)[k].created_at by {
                if k > 0 {
                    assert(spec_update(s, id, title, content, now)[k] == spec_update(
                        s.drop_first(),
                        id,
                        title,
                        content,
                        now,
                    )[k - 1]);
                    assert(s.drop_first()[k - 1] == s[k]);
                }
            }
        }
    }
}

/// What a removal keeps: every surviving note stood in the store before,
/// no note carrying the removed identifier survives, and uniqueness is kept.
pub proof fn lemma_remove_keeps(s: Seq<NoteV>, id: Seq<char>)
    ensures
        forall|k: int|
            0 <= k < spec_remove(s, id).len() ==> exists|m: int|
                0 <= m < s.len() && #[trigger] spec_remove(s, id)[k] == s[m],
        forall|k: int| 0 <= k < spec_remove(s, id).len() ==> #[trigger] spec_remove(s, id)[k].id != id,
        unique_ids(s) ==> unique_ids(spec_remove(s, id)),
        times_ok(s) ==> times_ok(spec_remove(s, id)),
    decreases s.len(),
{
    if s.len() == 0 {
    } else {
        lemma_remove_keeps(s.drop_first(), id);
        let rest = spec_remove(s.drop_first(), id);
        assert forall|k: int| 0 <= k < spec_remove(s, id).len() implies exists|m: int|
            0 <= m < s.len() && #[trigger] spec_remove(s, id)[k] == s[m] by {
            if s.first().id == id {
                let m = choose|m: int|
                    0 <= m < s.drop_first().len() && rest[k] == s.drop_first()[m];
                assert(spec_remove(s, id)[k] == s[m + 1]);
            } else {
                if k == 0 {
                    assert(spec_remove(s, id)[0] == s[0]);
                } else {
                    let m = choose|m: int|
                        0 <= m < s.drop_first().len() && rest[k - 1] == s.drop_first()[m];
                    assert(spec_remove(s, id)[k] == s[m + 1]);
                }
            }
        }
        if unique_ids(s) {
            assert forall|i: int, j: int|
                0 <= i < j < spec_remove(s, id).len() implies spec_remove(s, id)[i].id
                != spec_remove(s, id)[j].id by {
                if s.first().id != id && i == 0 {
                    let m = choose|m: int|
                        0 <= m < s.drop_first().len() && rest[j - 1] == s.drop_first()[m];
                    assert(spec_remove(s, id)[j] == s[m + 1]);
                    assert(s[0].id != s[m + 1].id);
                }
            }
        }
    }
}

/// The JSON image of one note: an object with the five note fields.
pub open spec fn note_doc(n: NoteV) -> JsonV {
    JsonV::Obj(
        seq![
            ("id"@, JsonV::Str(n.id)),
            ("title"@, JsonV::Str(n.title)),
            ("content"@, JsonV::Str(n.content)),
            ("created_at"@, JsonV::UInt(n.created_at)),
            ("updated_at"@, JsonV::UInt(n.updated_at)),
        ],
    )
}

/// The JSON image of a whole store: the array of its notes' objects.
pub open spec fn notes_doc(s: Seq<NoteV>) -> JsonV {
    JsonV::Arr(Seq::new(s.len(), |i: int| note_doc(s[i])))
}

/// Reading one note back out of a JSON value: the five fields are looked up
/// by name, in any order and ignoring extra fields; anything missing or of
/// the wrong shape yields nothing.
pub open spec fn load_note(j: JsonV) -> Option<NoteV> {
    match j {
        JsonV::Obj(fs) => match (
            spec_obj_get(fs, "id"@),
            spec_obj_get(fs, "title"@),
            spec_obj_get(fs, "content"@),
            spec_obj_get(fs, "created_at"@),
            spec_obj_get(fs, "updated_at"@),
        ) {
            (
                Option::Some(JsonV::Str(id)),
                Option::Some(JsonV::Str(title)),
                Option::Some(JsonV::Str(content)),
                Option::Some(JsonV::UInt(created_at)),
                Option::Some(JsonV::UInt(updated_at)),
            ) => Option::Some(NoteV { id, title, content, created_at, updated_at }),
            _ => Option::None,
        },
        _ => Option::None,
    }
}

pub open spec fn load_list(els: Seq<JsonV>) -> Option<Seq<NoteV>>
    decreases els.len(),
{
    if els.len() == 0 {
        Option::Some(Seq::empty())
    } else {
        match (load_note(els.first()), load_list(els.drop_first())) {
            (Option::Some(n), Option::Some(rest)) => Option::Some(seq![n] + rest),
            _ => Option::None,
        }
    }
}

/// Reading a whole store back out of a JSON value: an array all of whose
/// items are well-formed note objects; anything else yields nothing.
pub open spec fn load_doc(j: JsonV) -> Option<Seq<NoteV>> {
    match j {
        JsonV::Arr(els) => load_list(els),
        _ => Option::None,
    }
}

/// A loadable store content: unique identifiers, ordered timestamps.
pub open spec fn store_ok(s: Seq<NoteV>) -> bool {
    unique_ids(s) && times_ok(s)
}

/// What a store construction yields for a given saved document: the loaded
/// notes when the document is a well-formed note array, the empty store for
/// a missing or malformed document.
pub open spec fn load_store(doc: Option<JsonV>) -> Seq<NoteV> {
    match doc {
        Option::None => Seq::empty(),
        Option::Some(d) => match load_doc(d) {
            Option::Some(s) => if store_ok(s) {
                s
            } else {
                Seq::empty()
            },
            Option::None => Seq::empty(),
        },
    }
}

pub open spec fn opt_doc_view(o: Option<&Json>) -> Option<JsonV> {
    match o {
        Option::Some(j) => Option::Some(j@),
        Option::None => Option::None,
    }
}

/// The JSON object standing for one note.
pub fn note_to_json(n: &Note) -> (r: Json)
    ensures
        r@ == note_doc(n@),
{
    let mut fs: Vec<(String, Json)> = Vec::new();
    fs.push((String::from_str("id"), Json::Str(n.id.clone())));
    fs.push((String::from_str("title"), Json::Str(n.title.clone())));
    fs.push((String::from_str("content"), Json::Str(n.content.clone())));
    fs.push((String::from_str("created_at"), Json::UInt(n.created_at)));
    fs.push((String::from_str("updated_at"), Json::UInt(n.updated_at)));
    let r = Json::Obj(fs);
    proof {
        let fsv = match &r {
            Json::Obj(v) => obj_view(v@),
            _ => Seq::empty(),
        };
        assert(fsv =~= match note_doc(n@) {
            JsonV::Obj(x) => x,
            _ => Seq::empty(),
        });
    }
    r
}

/// The note stored in a JSON value, if it is a well-formed note object.
pub fn json_to_note(j: &Json) -> (r: Option<Note>)
    ensures
        match r {
            Option::Some(n) => load_note(j@) == Option::Some(n@),
            Option::None => load_note(j@) is None,
        },
{
    match j {
        Json::Obj(fs) => {
            let id = match obj_get(fs, "id") {
                Option::Some(Json::Str(s)) => s,
                _ => {
                    return Option::None;
                },
            };
            let title = match obj_get(fs, "title") {
                Option::Some(Json::Str(s)) => s,
                _ => {
                    return Option::None;
                },
            };
            let content = match obj_get(fs, "content") {
                Option::Some(Json::Str(s)) => s,
                _ => {
                    return Option::None;
                },
            };
            let created_at = match obj_get(fs, "created_at") {
                Option::Some(Json::UInt(x)) => *x,
                _ => {
                    return Option::None;
                },
            };
            let updated_at = match obj_get(fs, "updated_at") {
                Option::Some(Json::UInt(x)) => *x,
                _ => {
                    return Option::None;
                },
            };
            Option::Some(
                Note {
                    id: id.clone(),
                    title: title.clone(),
                    content: content.clone(),
                    created_at,
                    updated_at,
                },
            )
        },
        _ => Option::None,
    }
}

/// The notes stored in a JSON value, if it is an array of well-formed note
/// objects.
pub fn json_to_notes(j: &Json) -> (r: Option<Vec<Note>>)
    ensures
        match r {
            Option::Some(v) => load_doc(j@) == Option::Some(notes_view(v@)),
            Option::None => load_doc(j@) is None,
        },
{
    match j {
        Json::Arr(els) => {
            let ghost av = arr_view(els@);
            let n = els.len();
            let mut out: Vec<Note> = Vec::new();
            let mut i: usize = 0;
            proof {
                assert(av.skip(0) =~= av);
            }
            while i < n
                invariant
                    n == els@.len(),
                    av == arr_view(els@),
                    j@ == JsonV::Arr(av),
                    av.len() == n,
                    i <= n,
                    out@.len() == i,
                    match load_list(av.skip(i as int)) {
                        Option::Some(rest) => load_list(av) == Option::Some(
                            notes_view(out@) + rest,
                        ),
                        Option::None => load_list(av) is None,
                    },
                decreases n - i,
            {
                proof {
                    assert(av.skip(i as int).first() == av[i as int]);
                    assert(av.skip(i as int).drop_first() =~= av.skip(i + 1));
                    assert(av[i as int] == els@[i as int]@);
                }
                match json_to_note(&els[i]) {
                    Option::Some(note) => {
                        let ghost outg = out@;
                        out.push(note);
                        proof {
                            assert(notes_view(out@) =~= notes_view(outg).push(out@.last()@));
                            match load_list(av.skip(i + 1)) {
                                Option::Some(rest) => {
                                    assert(notes_view(outg) + (seq![out@.last()@] + rest)
                                        =~= notes_view(out@) + rest);
                                },
                                Option::None => {},
                            }
                        }
                    },
                    Option::None => {
                        return Option::None;
                    },
                }
                i = i + 1;
            }
            proof {
                assert(av.skip(n as int) =~= Seq::<JsonV>::empty());
                assert(notes_view(out@) + Seq::<NoteV>::empty() =~= notes_view(out@));
            }
            Option::Some(out)
        },
        _ => Option::None,
    }
}

impl NoteStore {
    /// Builds the store from the saved document the host read back, if any:
    /// the notes it holds when it is a well-formed note array with unique
    /// identifiers and ordered timestamps, the empty store otherwise. A
    /// missing or malformed file never fails construction.
    pub fn new(saved: Option<&Json>) -> (r: NoteStore)
        ensures
            r.wf(),
            r@ =~= load_store(opt_doc_view(saved)),
    {
        let parsed: Option<Vec<Note>> = match saved {
            Option::Some(d) => json_to_notes(d),
            Option::None => Option::None,
        };
        match parsed {
            Option::Some(v) => {
                if notes_valid(&v) {
                    NoteStore { notes: v }
                } else {
                    NoteStore { notes: Vec::new() }
                }
            },
            Option::None => NoteStore { notes: Vec::new() },
        }
    }

    /// Builds the store straight from the backing file's text, when the
    /// host could read one: the text is parsed here, and anything malformed
    /// yields the empty store, never a failure.
    pub fn from_text(saved: Option<&str>) -> (r: NoteStore)
        ensures
            r.wf(),
            r@ =~= load_store(
                match saved {
                    Option::Some(t) => crate::parse::parse_doc(t@),
                    Option::None => Option::None,
                },
            ),
    {
        match saved {
            Option::Some(t) => match crate::parse::parse_notes_doc(t) {
                Option::Some(d) => NoteStore::new(Option::Some(&d)),
                Option::None => NoteStore::new(Option::None),
            },
            Option::None => NoteStore::new(Option::None),
        }
    }

    /// The JSON document mirroring the current store content.
    pub fn save_doc(&self) -> (r: Json)
        ensures
            r@ == notes_doc(self@),
    {
        let ghost s = self@;
        let n = self.notes.len();
        let mut els: Vec<Json> = Vec::new();
        let mut i: usize = 0;
        while i < n
            invariant
                n == self.notes@.len(),
                s == self@,
                s.len() == n,
                i <= n,
                els@.len() == i,
                forall|k: int| 0 <= k < i ==> #[trigger] els@[k]@ == note_doc(s[k]),
            decreases n - i,
        {
            els.push(note_to_json(&self.notes[i]));
            i = i + 1;
        }
        let r = Json::Arr(els);
        proof {
            let got = match &r {
                Json::Arr(v) => arr_view(v@),
                _ => Seq::empty(),
            };
            assert(got.len() == s.len());
            assert forall|k: int| 0 <= k < s.len() implies got[k] == note_doc(s[k]) by {
                assert(els@[k]@ == note_doc(s[k]));
            }
            assert(got =~= Seq::new(s.len(), |k: int| note_doc(s[k])));
        }
        r
    }

    /// The textual JSON the host writes to the backing file after every
    /// mutation.
    pub fn save_json(&self) -> (r: String)
        ensures
            r@ == render_spec(notes_doc(self@)),
    {
        let d = self.save_doc();
        crate::json::render(&d)
    }
}

/// Whether a parsed note list has unique identifiers and ordered timestamps.
fn notes_valid(v: &Vec<Note>) -> (r: bool)
    ensures
        r == store_ok(notes_view(v@)),
{
    let ghost s = notes_view(v@);
    let n = v.len();
    let mut i: usize = 0;
    while i < n
        invariant
            n == v@.len(),
            s == notes_view(v@),
            i <= n,
            forall|k: int| 0 <= k < i ==> #[trigger] s[k].updated_at >= s[k].created_at,
        decreases n - i,
    {
        if v[i].updated_at < v[i].created_at {
            proof {
                assert(s[i as int].updated_at < s[i as int].created_at);
                assert(!times_ok(s));
            }
            return false;
        }
        i = i + 1;
    }
    let mut a: usize = 0;
    while a < n
        invariant
            n == v@.len(),
            s == notes_view(v@),
            s.len() == n,
            a <= n,
            times_ok(s),
            forall|x: int, y: int| 0 <= x < y < s.len() && x < a ==> s[x].id != s[y].id,
        decreases n - a,
    {
        let mut b: usize = a + 1;
        while b < n
            invariant
                n == v@.len(),
                s == notes_view(v@),
                s.len() == n,
                a < b <= n || (a + 1 == b && b > n),
                a < n,
                forall|x: int, y: int| 0 <= x < y < s.len() && x < a ==> s[x].id != s[y].id,
                forall|y: int| a < y < b ==> s[a as int].id != s[y].id,
            decreases n - b,
        {
            if crate::json::str_eq(v[a].id.as_str(), v[b].id.as_str()) {
                proof {
                    assert(s[a as int].id == s[b as int].id);
                    assert(!unique_ids(s));
                }
                return false;
            }
            b = b + 1;
        }
        a = a + 1;
    }
    true
}

/// Creating then fetching: a note appended under an identifier not yet in
/// the store is found by that identifier, exactly as created.
pub proof fn lemma_create_then_get(s: Seq<NoteV>, nv: NoteV)
    requires
        !contains_id(s, nv.id),
    ensures
        spec_get(s.push(nv), nv.id) == Option::Some(nv),
{
    lemma_get_push(s, nv, nv.id);
}

/// What an update does to lookups: the updated identifier now yields the
/// rewritten note (or still nothing when it was absent, in which case the
/// store is untouched), and every other identifier yields what it did
/// before.
pub proof fn lemma_update_then_get(
    s: Seq<NoteV>,
    id: Seq<char>,
    title: Option<Seq<char>>,
    content: Option<Seq<char>>,
    now: u64,
)
    ensures
        spec_get(spec_update(s, id, title, content, now), id) == match spec_get(s, id) {
            Option::Some(n) => Option::Some(upd_note(n, title, content, now)),
            Option::None => Option::<NoteV>::None,
        },
        forall|id2: Seq<char>|
            id2 != id ==> #[trigger] spec_get(spec_update(s, id, title, content, now), id2)
                == spec_get(s, id2),
        !contains_id(s, id) ==> spec_update(s, id, title, content, now) =~= s,
    decreases s.len(),
{
    let u = spec_update(s, id, title, content, now);
    if s.len() == 0 {
        assert(u =~= s);
    } else {
        lemma_update_then_get(s.drop_first(), id, title, content, now);
        let rest = spec_update(s.drop_first(), id, title, content, now);
        assert(u.first() == if s.first().id == id {
            upd_note(s.first(), title, content, now)
        } else {
            s.first()
        });
        assert(u.drop_first() =~= rest);
        assert(u.len() > 0);
        assert forall|id2: Seq<char>| id2 != id implies #[trigger] spec_get(u, id2) == spec_get(
            s,
            id2,
        ) by {
            assert(u.first().id == s.first().id);
            if s.first().id == id2 {
                assert(spec_get(u, id2) == Option::Some(u.first()));
            } else {
                assert(spec_get(u, id2) == spec_get(rest, id2));
                assert(spec_get(s, id2) == spec_get(s.drop_first(), id2));
            }
        }
        if !contains_id(s, id) {
            assert(s.first().id != id);
            assert(!contains_id(s.drop_first(), id));
            assert(u =~= s);
        }
    }
}

/// Updating only the title: the fetched note afterwards carries the new
/// title, the old content and creation time, and an update time no earlier
/// than before, whatever the clock read.
pub proof fn lemma_update_title_only(
    s: Seq<NoteV>,
    id: Seq<char>,
    title: Seq<char>,
    now: u64,
    n: NoteV,
)
    requires
        spec_get(s, id) == Option::Some(n),
    ensures
        spec_get(spec_update(s, id, Option::Some(title), Option::None, now), id) == Option::Some(
            upd_note(n, Option::Some(title), Option::None, now),
        ),
        upd_note(n, Option::Some(title), Option::None, now).title == title,
        upd_note(n, Option::Some(title), Option::None, now).content == n.content,
        upd_note(n, Option::Some(title), Option::None, now).created_at == n.created_at,
        upd_note(n, Option::Some(title), Option::None, now).updated_at >= n.updated_at,
{
    lemma_update_then_get(s, id, Option::Some(title), Option::None, now);
}

/// Removing an identifier that no note carries changes nothing.
pub proof fn lemma_remove_noop(s: Seq<NoteV>, id: Seq<char>)
    requires
        forall|k: int| 0 <= k < s.len() ==> #[trigger] s[k].id != id,
    ensures
        spec_remove(s, id) =~= s,
    decreases s.len(),
{
    if s.len() > 0 {
        assert(s[0].id != id);
        assert forall|k: int| 0 <= k < s.drop_first().len() implies #[trigger] s.drop_first()[k].id
            != id by {
            assert(s.drop_first()[k] == s[k + 1]);
        }
        lemma_remove_noop(s.drop_first(), id);
        assert(spec_remove(s, id) =~= seq![s.first()] + spec_remove(s.drop_first(), id));
        assert(seq![s.first()] + s.drop_first() =~= s);
    }
}

/// Removal leaves lookups of every other identifier as they were.
pub proof fn lemma_remove_get_other(s: Seq<NoteV>, id: Seq<char>, id2: Seq<char>)
    requires
        id2 != id,
    ensures
        spec_get(spec_remove(s, id), id2) == spec_get(s, id2),
    decreases s.len(),
{
    if s.len() > 0 {
        lemma_remove_get_other(s.drop_first(), id, id2);
        if s.first().id == id {
        } else {
            let r = seq![s.first()] + spec_remove(s.drop_first(), id);
            assert(r.first() == s.first());
            assert(r.drop_first() =~= spec_remove(s.drop_first(), id));
        }
    }
}

/// Deleting twice: the first removal leaves no note under the identifier,
/// so removing it again changes nothing; other identifiers are unaffected.
pub proof fn lemma_delete_twice(s: Seq<NoteV>, id: Seq<char>)
    ensures
        !contains_id(spec_remove(s, id), id),
        spec_remove(spec_remove(s, id), id) =~= spec_remove(s, id),
        forall|id2: Seq<char>|
            id2 != id ==> #[trigger] spec_get(spec_remove(s, id), id2) == spec_get(s, id2),
{
    lemma_remove_keeps(s, id);
    lemma_get_exists(spec_remove(s, id), id);
    lemma_remove_noop(spec_remove(s, id), id);
    assert forall|id2: Seq<char>| id2 != id implies #[trigger] spec_get(spec_remove(s, id), id2)
        == spec_get(s, id2) by {
        lemma_remove_get_other(s, id, id2);
    }
}

/// One note survives its trip through the persisted document unchanged.
pub proof fn lemma_load_note_doc(n: NoteV)
    ensures
        load_note(note_doc(n)) == Option::Some(n),
{
    reveal_strlit("id");
    reveal_strlit("title");
    reveal_strlit("content");
    reveal_strlit("created_at");
    reveal_strlit("updated_at");
    let fs = seq![
        ("id"@, JsonV::Str(n.id)),
        ("title"@, JsonV::Str(n.title)),
        ("content"@, JsonV::Str(n.content)),
        ("created_at"@, JsonV::UInt(n.created_at)),
        ("updated_at"@, JsonV::UInt(n.updated_at)),
    ];
    let f1 = fs.drop_first();
    let f2 = f1.drop_first();
    let f3 = f2.drop_first();
    let f4 = f3.drop_first();
    assert(f1 =~= seq![
        ("title"@, JsonV::Str(n.title)),
        ("content"@, JsonV::Str(n.content)),
        ("created_at"@, JsonV::UInt(n.created_at)),
        ("updated_at"@, JsonV::UInt(n.updated_at)),
    ]);
    assert(f2 =~= seq![
        ("content"@, JsonV::Str(n.content)),
        ("created_at"@, JsonV::UInt(n.created_at)),
        ("updated_at"@, JsonV::UInt(n.updated_at)),
    ]);
    assert(f3 =~= seq![
        ("created_at"@, JsonV::UInt(n.created_at)),
        ("updated_at"@, JsonV::UInt(n.updated_at)),
    ]);
    assert(f4 =~= seq![("updated_at"@, JsonV::UInt(n.updated_at))]);
    assert("id"@.len() == 2);
    assert("title"@.len() == 5);
    assert("content"@.len() == 7);
    assert("created_at"@.len() == 10);
    assert("updated_at"@.len() == 10);
    assert("created_at"@[0] == 'c');
    assert("updated_at"@[0] == 'u');
    assert("created_at"@ != "updated_at"@);
    assert(spec_obj_get(fs, "id"@) == Option::Some(JsonV::Str(n.id)));
    assert(spec_obj_get(fs, "title"@) == spec_obj_get(f1, "title"@));
    assert(spec_obj_get(f1, "title"@) == Option::Some(JsonV::Str(n.title)));
    assert(spec_obj_get(fs, "content"@) == spec_obj_get(f1, "content"@));
    assert(spec_obj_get(f1, "content"@) == spec_obj_get(f2, "content"@));
    assert(spec_obj_get(f2, "content"@) == Option::Some(JsonV::Str(n.content)));
    assert(spec_obj_get(fs, "created_at"@) == spec_obj_get(f1, "created_at"@));
    assert(spec_obj_get(f1, "created_at"@) == spec_obj_get(f2, "created_at"@));
    assert(spec_obj_get(f2, "created_at"@) == spec_obj_get(f3, "created_at"@));
    assert(spec_obj_get(f3, "created_at"@) == Option::Some(JsonV::UInt(n.created_at)));
    assert("created_at"@ != "updated_at"@);
    assert(spec_obj_get(fs, "updated_at"@) == spec_obj_get(f1, "updated_at"@));
    assert(spec_obj_get(f1, "updated_at"@) == spec_obj_get(f2, "updated_at"@));
    assert(spec_obj_get(f2, "updated_at"@) == spec_obj_get(f3, "updated_at"@));
    assert(spec_obj_get(f3, "updated_at"@) == spec_obj_get(f4, "updated_at"@));
    assert(spec_obj_get(f4, "updated_at"@) == Option::Some(JsonV::UInt(n.updated_at)));
}

pub proof fn lemma_load_list_doc(s: Seq<NoteV>)
    ensures
        load_list(Seq::new(s.len(), |i: int| note_doc(s[i]))) == Option::Some(s),
    decreases s.len(),
{
    let docs = Seq::new(s.len(), |i: int| note_doc(s[i]));
    if s.len() == 0 {
        assert(s =~= Seq::<NoteV>::empty());
    } else {
        lemma_load_note_doc(s.first());
        lemma_load_list_doc(s.drop_first());
        let rest = s.drop_first();
        assert(docs.first() == note_doc(s.first()));
        assert(docs.drop_first() =~= Seq::new(rest.len(), |i: int| note_doc(rest[i])));
        assert(seq![s.first()] + rest =~= s);
    }
}

/// A store written out and read back yields the same notes: the round trip
/// through the persisted JSON document is the identity.
pub proof fn lemma_save_load_roundtrip(s: Seq<NoteV>)
    ensures
        load_doc(notes_doc(s)) == Option::Some(s),
{
    lemma_load_list_doc(s);
}

/// Restarting against the document a well-formed store saved reconstructs
/// exactly that store's notes.
pub proof fn lemma_store_restart(s: Seq<NoteV>)
    requires
        store_ok(s),
    ensures
        load_store(Option::Some(notes_doc(s))) =~= s,
{
    lemma_save_load_roundtrip(s);
}

/// The note document renders as objects the file parser accepts: each note
/// becomes an object of five scalar fields.
pub proof fn lemma_note_doc_flat(n: NoteV)
    ensures
        crate::parse::flat_obj(note_doc(n)),
{
    match note_doc(n) {
        JsonV::Obj(fs) => {
            assert(fs.len() == 5);
            assert forall|m: int| 0 <= m < fs.len() implies crate::parse::flat_value(
                (#[trigger] fs[m]).1,
            ) by {
                assert(fs[0].1 is Str);
                assert(fs[1].1 is Str);
                assert(fs[2].1 is Str);
                assert(fs[3].1 is UInt);
                assert(fs[4].1 is UInt);
            }
        },
        _ => {},
    }
}

/// The file text the store writes parses back to the very document it
/// rendered.
pub proof fn lemma_text_roundtrip(s: Seq<NoteV>)
    ensures
        crate::parse::parse_doc(render_spec(notes_doc(s))) == Option::Some(notes_doc(s)),
{
    let docs = Seq::new(s.len(), |i: int| note_doc(s[i]));
    let text = render_spec(notes_doc(s));
    let items = render_items_from(docs, 0);
    assert(text == seq!['['] + items + seq![']']);
    assert(text[0] == '[');
    assert(!crate::parse::is_ws('['));
    assert(crate::parse::skip_ws(text, 0) == 0);
    if s.len() == 0 {
        assert(items =~= Seq::<char>::empty());
        assert(text.len() == 2);
        assert(text[1] == ']');
        assert(crate::parse::skip_ws(text, 2) == 2);
        assert(docs =~= Seq::<JsonV>::empty());
    } else {
        assert forall|m: int| 0 <= m < docs.len() implies crate::parse::flat_obj(
            #[trigger] docs[m],
        ) by {
            lemma_note_doc_flat(s[m]);
        }
        assert(items.len() > 0 && items[0] == '{') by {
            let r0 = render_spec(docs[0]);
            match docs[0] {
                JsonV::Obj(fs0) => {
                    assert(r0 == seq!['{'] + crate::json::render_fields_from(fs0, 0) + seq!['}']);
                    assert(r0[0] == '{');
                },
                _ => {},
            }
            if 1 < docs.len() {
                assert(items == r0 + seq![','] + render_items_from(docs, 1));
            } else {
                assert(items == r0);
            }
        }
        assert(text[1] == '{');
        assert(!crate::parse::is_ws('{'));
        assert(crate::parse::skip_ws(text, 1) == 1);
        assert(text[1] != ']');
        assert(text.subrange(1, 1 + items.len() as int) =~= items);
        assert(text[1 + items.len() as int] == ']');
        crate::parse::lemma_parse_objs_render(docs, 0, text, 1);
        assert(docs.subrange(0, docs.len() as int) =~= docs);
        assert(crate::parse::skip_ws(text, text.len() as int) == text.len());
    }
}

/// The whole persistence round trip at the level of the file's text: a
/// well-formed store's saved text, read back at the next start, yields
/// exactly the notes that were saved.
pub proof fn lemma_file_roundtrip(s: Seq<NoteV>)
    requires
        store_ok(s),
    ensures
        load_store(crate::parse::parse_doc(render_spec(notes_doc(s)))) =~= s,
{
    lemma_text_roundtrip(s);
    lemma_save_load_roundtrip(s);
}

/// Relies on uuid::Uuid::new_v4 together with its display form: a fresh
/// random identifier rendered as the 36-character hyphenated text. Nothing
/// else is promised of the value; in particular, not uniqueness.
#[verifier::external_body]
fn fresh_id() -> (r: String)
    ensures
        r@.len() == 36,
{
    uuid::Uuid::new_v4().to_string()
}

} // verus!
