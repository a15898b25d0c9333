//! An in-memory store of notes.
//!
//! Notes get the ids 1, 2, 3, … in the order they are added, and keep that order. A note is
//! `"open"` or `"archived"`; an open note untouched for more than a week is stale.
//! Time is an input, counted in nanoseconds since the Unix epoch: a note's update time in a
//! `u64`, and the instant at which notes are judged stale in a `u128`, so that any reading of
//! the clock fits.
use std::collections::HashMap;
use vstd::prelude::*;
use vstd::string::*;

use crate::text::{
    chars_of, decimal, find_char, first_char, lemma_first_char, lemma_lines_len, line_bounds,
    lines, push_decimal, same_text,
};

verus! {

broadcast use vstd::string::group_string_axioms, vstd::std_specs::hash::group_hash_axioms;

/// A note.
#[derive(Debug, PartialEq, Eq)]
pub struct Note {
    /// The note's id, given by the store.
    pub id: u64,
    /// 0 means the note has no parent.
    pub parent: u64,
    /// The title.
    pub title: String,
    /// The body.
    pub body: String,
    /// The tags, in the order they were added.
    pub tags: Vec<String>,
    /// "open" or "archived".
    pub status: String,
    /// When the note was last updated, in nanoseconds since the Unix epoch.
    pub updated_at: u64,
}

/// `a` and `b` hold the same note: the same fields, and tags of the same contents.
pub open spec fn same_note(a: Note, b: Note) -> bool {
    &&& a.id == b.id
    &&& a.parent == b.parent
    &&& a.title == b.title
    &&& a.body == b.body
    &&& a.tags@ == b.tags@
    &&& a.status == b.status
    &&& a.updated_at == b.updated_at
}

impl Clone for Note {
    fn clone(&self) -> (r: Self)
        ensures
            same_note(r, *self),
    {
        let tags = self.tags.clone();
        proof {
            assert(tags@ =~= self.tags@);
        }
        Note {
            id: self.id,
            parent: self.parent,
            title: self.title.clone(),
            body: self.body.clone(),
            tags,
            status: self.status.clone(),
            updated_at: self.updated_at,
        }
    }
}

/// Why a text did not load as notes.
#[derive(Debug)]
pub enum StoreError {
    /// A line is not a note; the message says which and why.
    Parse(String),
}

impl StoreError {
    /// The error as a reader sees it: `parse error: ` and the message.
    pub fn describe(&self) -> (r: String)
        ensures
            match self {
                StoreError::Parse(msg) => r@ == "parse error: "@ + msg@,
            },
    {
        match self {
            StoreError::Parse(msg) => {
                let mut r = String::from_str("parse error: ");
                r.append(msg.as_str());
                r
            },
        }
    }
}

/// The status of a note that is in use.
pub open spec fn open_status() -> Seq<char> {
    seq!['o', 'p', 'e', 'n']
}

/// The status of a note that was put away.
pub open spec fn archived_status() -> Seq<char> {
    seq!['a', 'r', 'c', 'h', 'i', 'v', 'e', 'd']
}

/// How long a note may stay untouched before it is stale: a week, in nanoseconds.
pub const STALE_AFTER: u64 = 604_800_000_000_000;

/// A note last updated at `updated_at` is stale at `now` when more than a week has passed;
/// a note updated after `now` is not.
pub open spec fn stale(updated_at: u64, now: u128) -> bool {
    now >= updated_at && now - updated_at > STALE_AFTER
}

/// Whether `note` carries the tag `tag`.
pub open spec fn has_tag(note: Note, tag: Seq<char>) -> bool {
    exists|j: int| 0 <= j < note.tags@.len() && #[trigger] note.tags@[j]@ == tag
}

/// Whether `count_by_tag` counts `note`.
pub open spec fn counted(note: Note, tag: Seq<char>, include_archived: bool) -> bool {
    has_tag(note, tag) && (include_archived || note.status@ != archived_status())
}

/// How many of `notes` carry `tag`, the archived ones only when `include_archived`.
pub open spec fn tag_count(notes: Seq<Note>, tag: Seq<char>, include_archived: bool) -> nat
    decreases notes.len(),
{
    if notes.len() == 0 {
        0
    } else {
        tag_count(notes.drop_last(), tag, include_archived) + if counted(
            notes.last(),
            tag,
            include_archived,
        ) {
            1nat
        } else {
            0nat
        }
    }
}

/// Whether `archive_stale_at(now)` archives `note`: it is open and stale.
pub open spec fn archives(note: Note, now: u128) -> bool {
    note.status@ == open_status() && stale(note.updated_at, now)
}

/// How many of `notes` `archive_stale_at(now)` archives.
pub open spec fn stale_count(notes: Seq<Note>, now: u128) -> nat
    decreases notes.len(),
{
    if notes.len() == 0 {
        0
    } else {
        stale_count(notes.drop_last(), now) + if archives(notes.last(), now) {
            1nat
        } else {
            0nat
        }
    }
}

/// `after` is `before` with the status of note `i` replaced by `status`.
pub open spec fn status_set(before: Note, after: Note, status: Seq<char>) -> bool {
    &&& after.id == before.id
    &&& after.parent == before.parent
    &&& after.title == before.title
    &&& after.body == before.body
    &&& after.tags == before.tags
    &&& after.status@ == status
    &&& after.updated_at == before.updated_at
}

/// The store: the notes in id order, and an index from id to place.
#[derive(Debug)]
pub struct Store {
    notes: Vec<Note>,
    index: HashMap<u64, usize>,
    next_id: u64,
}

impl View for Store {
    type V = Seq<Note>;

    closed spec fn view(&self) -> Seq<Note> {
        self.notes@
    }
}

impl Store {
    /// The store's internal consistency: note `i` has id `i + 1`, and the index maps each id
    /// to its note.
    pub closed spec fn wf(&self) -> bool {
        &&& self.next_id == self.notes@.len() + 1
        &&& forall|i: int| 0 <= i < self.notes@.len() ==> (#[trigger] self.notes@[i]).id == i + 1
        &&& forall|k: u64|
            #![trigger self.index@.contains_key(k)]
            self.index@.contains_key(k) <==> 1 <= k <= self.notes@.len()
        &&& forall|k: u64| #[trigger]
            self.index@.contains_key(k) ==> self.index@[k] == k - 1
    }

    /// Note ids follow their positions: note `i` has id `i + 1`, so no two notes share an id.
    pub proof fn law_ids_follow_positions(&self)
        requires
            self.wf(),
        ensures
            forall|i: int| 0 <= i < self@.len() ==> (#[trigger] self@[i]).id == i + 1,
            forall|i: int, j: int|
                0 <= i < self@.len() && 0 <= j < self@.len() && i != j ==> #[trigger] self@[i].id
                    != #[trigger] self@[j].id,
    {
    }

    /// Whether a note with id `id` is in the store.
    pub open spec fn holds(self, id: u64) -> bool {
        1 <= id <= self@.len()
    }

    /// An empty store.
    pub fn new() -> (s: Self)
        ensures
            s.wf(),
            s@ == Seq::<Note>::empty(),
    {
        Store { notes: Vec::new(), index: HashMap::new(), next_id: 1 }
    }

    /// Adds an open, untagged note and returns its id, the next in line.
    pub fn add_note(&mut self, title: &String, body: &String, parent: u64, now: u64) -> (id: u64)
        requires
            old(self).wf(),
            old(self)@.len() + 2 <= u64::MAX,
        ensures
            final(self).wf(),
            id == old(self)@.len() + 1,
            final(self)@.len() == old(self)@.len() + 1,
            final(self)@.drop_last() == old(self)@,
            final(self)@.last().id == id,
            final(self)@.last().parent == parent,
            final(self)@.last().title@ == title@,
            final(self)@.last().body@ == body@,
            final(self)@.last().tags@ == Seq::<String>::empty(),
            final(self)@.last().status@ == open_status(),
            final(self)@.last().updated_at == now,
    {
        let id = self.next_id;
        self.next_id = self.next_id + 1;
        proof {
            reveal_strlit("open");
        }
        self.notes.push(
            Note {
                id,
                parent,
                title: title.clone(),
                body: body.clone(),
                tags: Vec::new(),
                status: String::from_str("open"),
                updated_at: now,
            },
        );
        self.index.insert(id, self.notes.len() - 1);
        proof {
            assert(self.notes@.drop_last() =~= old(self).notes@);
        }
        id
    }

    /// Adds the tag `tag` to note `id`.
    pub fn add_tag(&mut self, id: u64, tag: &str)
        requires
            old(self).wf(),
            old(self).holds(id),
        ensures
            final(self).wf(),
            final(self)@.len() == old(self)@.len(),
            forall|i: int|
                0 <= i < old(self)@.len() && i != id - 1 ==> #[trigger] final(self)@[i] == old(
                    self,
                )@[i],
            ({
                let (before, after) = (old(self)@[id - 1], final(self)@[id - 1]);
                &&& after.id == before.id && after.parent == before.parent
                &&& after.title == before.title && after.body == before.body
                &&& after.status == before.status && after.updated_at == before.updated_at
                &&& after.tags@.len() == before.tags@.len() + 1
                &&& after.tags@.drop_last() == before.tags@
                &&& after.tags@.last()@ == tag@
            }),
    {
        let i = *self.index.get(&id).unwrap();
        let note = &mut self.notes[i];
        note.tags.push(String::from_str(tag));
        proof {
            assert(note.tags@.drop_last() =~= old(self).notes@[id - 1].tags@);
        }
    }

    /// The notes, in id order.
    pub fn get_notes(&self) -> (r: &Vec<Note>)
        ensures
            r@ == self@,
    {
        &self.notes
    }

    /// The note with id `id`, if there is one.
    pub fn find(&self, id: u64) -> (r: Option<&Note>)
        requires
            self.wf(),
        ensures
            r == if self.holds(id) {
                Some(&self@[id - 1])
            } else {
                None::<&Note>
            },
            r matches Some(note) ==> note.id == id,
    {
        match self.index.get(&id) {
            Some(i) => Some(&self.notes[*i]),
            None => None,
        }
    }

    /// The titles, in id order.
    pub fn titles(&self) -> (r: Vec<String>)
        ensures
            r@.len() == self@.len(),
            forall|i: int| 0 <= i < r@.len() ==> #[trigger] r@[i] == self@[i].title,
    {
        let mut out: Vec<String> = Vec::new();
        let n = self.notes.len();
        for i in 0..n
            invariant
                n == self.notes@.len(),
                out@.len() == i,
                forall|k: int| 0 <= k < i ==> #[trigger] out@[k] == self.notes@[k].title,
        {
            out.push(self.notes[i].title.clone());
        }
        out
    }

    /// Sets the status of note `id`, which must be `"open"` or `"archived"`.
    pub fn set_status(&mut self, id: u64, status: &str)
        requires
            old(self).wf(),
            old(self).holds(id),
            status@ == open_status() || status@ == archived_status(),
        ensures
            final(self).wf(),
            final(self)@.len() == old(self)@.len(),
            forall|i: int|
                0 <= i < old(self)@.len() && i != id - 1 ==> #[trigger] final(self)@[i] == old(
                    self,
                )@[i],
            status_set(old(self)@[id - 1], final(self)@[id - 1], status@),
    {
        let i = *self.index.get(&id).unwrap();
        self.notes[i].status = String::from_str(status);
    }

    /// How many notes carry `tag`, counting the archived ones only when `include_archived`.
    pub fn count_by_tag(&self, tag: &str, include_archived: bool) -> (n: usize)
        ensures
            n == tag_count(self@, tag@, include_archived),
    {
        proof {
            reveal_strlit("archived");
        }
        let mut count: usize = 0;
        let n = self.notes.len();
        for i in 0..n
            invariant
                n == self.notes@.len(),
                count <= i,
                count == tag_count(self.notes@.take(i as int), tag@, include_archived),
                "archived"@ == archived_status(),
        {
            let note = &self.notes[i];
            let mut tagged = false;
            let m = note.tags.len();
            for j in 0..m
                invariant
                    m == note.tags@.len(),
                    tagged == exists|k: int| 0 <= k < j && #[trigger] note.tags@[k]@ == tag@,
            {
                if same_text(note.tags[j].as_str(), tag) {
                    tagged = true;
                }
            }
            let archived = same_text(note.status.as_str(), "archived");
            proof {
                assert(self.notes@.take(i + 1).drop_last() == self.notes@.take(i as int));
                assert(tagged == has_tag(*note, tag@));
            }
            if tagged && (include_archived || !archived) {
                count = count + 1;
            }
        }
        proof {
            assert(self.notes@.take(n as int) == self.notes@);
        }
        count
    }

    /// Archives every open note that is stale at the current time, and returns how many.
    /// The clock decides the instant, so what is stated is that there is one at which
    /// exactly the returned number of notes were archived: those open and stale then.
    pub fn archive_stale(&mut self) -> (n: usize)
        requires
            old(self).wf(),
        ensures
            final(self).wf(),
            final(self)@.len() == old(self)@.len(),
            exists|now: u128|
                #![trigger stale_count(old(self)@, now)]
                n == stale_count(old(self)@, now) && forall|i: int|
                    0 <= i < old(self)@.len() ==> if archives(#[trigger] old(self)@[i], now) {
                        status_set(old(self)@[i], final(self)@[i], archived_status())
                    } else {
                        final(self)@[i] == old(self)@[i]
                    },
    {
        let now = current_time();
        let n = self.archive_stale_at(now);
        assert(n == stale_count(old(self)@, now));
        n
    }

    /// Archives every open note that is stale at `now`, and returns how many.
    pub fn archive_stale_at(&mut self, now: u128) -> (n: usize)
        requires
            old(self).wf(),
        ensures
            final(self).wf(),
            n == stale_count(old(self)@, now),
            final(self)@.len() == old(self)@.len(),
            forall|i: int|
                0 <= i < old(self)@.len() ==> if archives(#[trigger] old(self)@[i], now) {
                    status_set(old(self)@[i], final(self)@[i], archived_status())
                } else {
                    final(self)@[i] == old(self)@[i]
                },
    {
        proof {
            reveal_strlit("open");
            reveal_strlit("archived");
        }
        let ghost before = self.notes@;
        let mut archived: usize = 0;
        let n = self.notes.len();
        for i in 0..n
            invariant
                self.wf(),
                n == self.notes@.len(),
                n == before.len(),
                archived <= i,
                archived == stale_count(before.take(i as int), now),
                "open"@ == open_status(),
                "archived"@ == archived_status(),
                forall|k: int|
                    0 <= k < n ==> if k < i && archives(#[trigger] before[k], now) {
                        status_set(before[k], self.notes@[k], archived_status())
                    } else {
                        self.notes@[k] == before[k]
                    },
        {
            let is_open = same_text(self.notes[i].status.as_str(), "open");
            let stale_now = Self::is_stale(&self.notes[i], now);
            proof {
                assert(before.take(i + 1).drop_last() == before.take(i as int));
                assert(before.take(i + 1).last() == before[i as int]);
            }
            if is_open && stale_now {
                let id = self.notes[i].id;
                self.set_status(id, "archived");
                archived = archived + 1;
            }
        }
        proof {
            assert(before.take(n as int) == before);
        }
        archived
    }

    /// Whether `note` is stale at `now`.
    fn is_stale(note: &Note, now: u128) -> (r: bool)
        ensures
            r == stale(note.updated_at, now),
    {
        // A note is stale after a week.
        now >= note.updated_at as u128 && now - note.updated_at as u128 > STALE_AFTER as u128
    }

    /// The most recently updated note; of several updated at the same time, the last.
    pub fn newest(&self) -> (r: Note)
        requires
            self@.len() > 0,
        ensures
            exists|k: int|
                0 <= k < self@.len() && same_note(r, self@[k]) && (forall|j: int|
                    0 <= j < self@.len() ==> #[trigger] self@[j].updated_at <= r.updated_at) && (
                forall|j: int| k < j < self@.len() ==> #[trigger] self@[j].updated_at < r.updated_at),
    {
        let n = self.notes.len();
        let mut best: usize = 0;
        for i in 1..n
            invariant
                n == self.notes@.len(),
                best < i,
                forall|j: int| 0 <= j < i ==> #[trigger] self.notes@[j].updated_at
                    <= self.notes@[best as int].updated_at,
                forall|j: int|
                    best < j < i ==> #[trigger] self.notes@[j].updated_at
                        < self.notes@[best as int].updated_at,
        {
            if self.notes[i].updated_at >= self.notes[best].updated_at {
                best = i;
            }
        }
        self.notes[best].clone()
    }
}

/// The type of the system clock's readings.
#[verifier::external_type_specification]
#[verifier::external_body]
pub struct ExSystemTime(std::time::SystemTime);

/// The error std gives for a clock reading before the instant it is measured from.
#[verifier::external_type_specification]
#[verifier::external_body]
pub struct ExSystemTimeError(std::time::SystemTimeError);

/// Reads the system clock with `SystemTime::now`. The reading depends on the clock, so
/// nothing is stated of it.
#[verifier::external_body]
fn clock_now() -> (t: std::time::SystemTime) {
    std::time::SystemTime::now()
}

/// How long after the Unix epoch `t` is, with `SystemTime::duration_since`, or an error for a
/// reading before it. A `Duration` is opaque to the library, so no clause ties the result to
/// `t`; it is only counted in nanoseconds and compared.
#[verifier::external_body]
fn since_epoch(t: std::time::SystemTime) -> (r: Result<
    std::time::Duration,
    std::time::SystemTimeError,
>) {
    t.duration_since(std::time::UNIX_EPOCH)
}

/// The whole nanoseconds of `d`, with `Duration::as_nanos`. A `Duration` is opaque to the
/// library, so no clause ties the count to `d`.
#[verifier::external_body]
fn whole_nanos(d: std::time::Duration) -> (n: u128) {
    d.as_nanos()
}

/// The instant a clock reading stands for, in nanoseconds since the Unix epoch: the count
/// itself, or 0 for a reading before the epoch (`None`). No note is stale at such a reading,
/// as every note is updated at or after the epoch, and none is stale at 0 either.
fn instant_of(nanos_since_epoch: Option<u128>) -> (now: u128)
    ensures
        now == match nanos_since_epoch {
            None => 0,
            Some(n) => n,
        },
{
    match nanos_since_epoch {
        None => 0,
        Some(n) => n,
    }
}

/// The current time, in nanoseconds since the Unix epoch, as `instant_of` counts a reading of
/// the system clock. The reading depends on the clock and is opaque here, so nothing is
/// promised of the value.
fn current_time() -> (now: u128) {
    let reading = match since_epoch(clock_now()) {
        Ok(age) => Some(whole_nanos(age)),
        Err(_) => None,
    };
    instant_of(reading)
}

/// Whether `line` holds the `'|'` that separates a title from a body.
pub open spec fn has_separator(line: Seq<char>) -> bool {
    first_char(line, 0, '|') < line.len()
}

/// The title of a note line: what stands before its first `'|'`.
pub open spec fn title_of(line: Seq<char>) -> Seq<char> {
    line.take(first_char(line, 0, '|'))
}

/// The body of a note line: what stands after its first `'|'`.
pub open spec fn body_of(line: Seq<char>) -> Seq<char> {
    line.skip(first_char(line, 0, '|') + 1)
}

/// What a loader says of line number `line_no` (counted from 1), `line`, which has no
/// separator.
pub open spec fn separator_message(line_no: nat, line: Seq<char>) -> Seq<char> {
    "line "@ + decimal(line_no) + " has no '|' separator: "@ + line
}

/// The note that line `k` of a text loads as, at `now`.
pub open spec fn loaded_note(note: Note, k: int, line: Seq<char>, now: u64) -> bool {
    &&& note.id == k + 1
    &&& note.parent == 0
    &&& note.title@ == title_of(line)
    &&& note.body@ == body_of(line)
    &&& note.tags@ == Seq::<String>::empty()
    &&& note.status@ == open_status()
    &&& note.updated_at == now
}

/// Loads one note per line of `text`, a title and a body separated by the line's first
/// `'|'`, each updated at `now`. A line without a separator fails the whole text, and the
/// error names the first such line, counted from 1.
pub fn parse_notes(text: &str, now: u64) -> (r: Result<Store, StoreError>)
    requires
        text@.len() + 2 <= u64::MAX,
    ensures
        r is Ok <==> forall|k: int|
            0 <= k < lines(text@).len() ==> has_separator(#[trigger] lines(text@)[k]),
        r matches Ok(store) ==> {
            &&& store.wf()
            &&& store@.len() == lines(text@).len()
            &&& forall|k: int|
                0 <= k < store@.len() ==> loaded_note(#[trigger] store@[k], k, lines(text@)[k], now)
        },
        r matches Err(StoreError::Parse(msg)) ==> exists|k: int|
            0 <= k < lines(text@).len() && !has_separator(lines(text@)[k]) && (forall|j: int|
                0 <= j < k ==> has_separator(#[trigger] lines(text@)[j])) && msg@
                == separator_message((k + 1) as nat, lines(text@)[k]),
{
    let chars = chars_of(text);
    let bounds = line_bounds(&chars);
    let ghost ls = lines(text@);
    proof {
        lemma_lines_len(text@, 0);
    }
    let mut store = Store::new();
    let n = bounds.len();
    for k in 0..n
        invariant
            n == bounds@.len(),
            n == ls.len(),
            n <= text@.len(),
            text@.len() + 2 <= u64::MAX,
            chars@ == text@,
            ls == lines(text@),
            forall|i: int|
                0 <= i < bounds@.len() ==> {
                    &&& (#[trigger] bounds@[i]).0 <= bounds@[i].1 <= chars@.len()
                    &&& chars@.subrange(bounds@[i].0 as int, bounds@[i].1 as int) == ls[i]
                },
            store.wf(),
            store@.len() == k,
            forall|j: int| 0 <= j < k ==> has_separator(#[trigger] ls[j]),
            forall|j: int| 0 <= j < k ==> loaded_note(#[trigger] store@[j], j, ls[j], now),
    {
        let (s, e) = bounds[k];
        let line = text.substring_char(s, e);
        let line_chars = chars_of(line);
        assert(line@ == ls[k as int]);
        match find_char(&line_chars, '|') {
            None => {
                let mut msg = String::from_str("line ");
                push_decimal(&mut msg, (k + 1) as u64);
                msg.append(" has no '|' separator: ");
                msg.append(line);
                return Err(StoreError::Parse(msg));
            },
            Some(p) => {
                proof {
                    lemma_first_char(line@, 0, '|');
                }
                let title = String::from_str(line.substring_char(0, p));
                let body = String::from_str(line.substring_char(p + 1, line_chars.len()));
                let ghost before = store@;
                store.add_note(&title, &body, 0, now);
                proof {
                    assert forall|j: int| 0 <= j < k + 1 implies loaded_note(
                        #[trigger] store@[j],
                        j,
                        ls[j],
                        now,
                    ) by {
                        if j < k {
                            assert(store@[j] == before[j]);
                        }
                    }
                }
            },
        }
    }
    Ok(store)
}

/// Archiving is done once: after `archive_stale_at(now)` has run, no note is left that it
/// would archive at the same instant.
pub proof fn law_archiving_again_archives_nothing(before: Seq<Note>, after: Seq<Note>, now: u128)
    requires
        after.len() == before.len(),
        forall|i: int|
            0 <= i < before.len() ==> if archives(#[trigger] before[i], now) {
                status_set(before[i], after[i], archived_status())
            } else {
                after[i] == before[i]
            },
    ensures
        stale_count(after, now) == 0,
    decreases before.len(),
{
    if before.len() > 0 {
        let n = before.len() - 1;
        assert(archived_status() != open_status()) by {
            assert(archived_status().len() != open_status().len());
        }
        assert forall|i: int| 0 <= i < n implies if archives(#[trigger] before.drop_last()[i], now) {
            status_set(before.drop_last()[i], after.drop_last()[i], archived_status())
        } else {
            after.drop_last()[i] == before.drop_last()[i]
        } by {
            assert(before.drop_last()[i] == before[i]);
            assert(after.drop_last()[i] == after[i]);
        }
        law_archiving_again_archives_nothing(before.drop_last(), after.drop_last(), now);
        assert(!archives(after.last(), now)) by {
            assert(after.last() == after[n]);
            assert(before.last() == before[n]);
        }
    }
}

/// Counting the archived notes too never gives fewer notes.
pub proof fn law_archived_notes_only_add_to_the_count(notes: Seq<Note>, tag: Seq<char>)
    ensures
        tag_count(notes, tag, false) <= tag_count(notes, tag, true),
    decreases notes.len(),
{
    if notes.len() > 0 {
        law_archived_notes_only_add_to_the_count(notes.drop_last(), tag);
    }
}

/// Replacing note `i` changes the count by what the two notes count for.
proof fn lemma_tag_count_update(
    notes: Seq<Note>,
    i: int,
    note: Note,
    tag: Seq<char>,
    include_archived: bool,
)
    requires
        0 <= i < notes.len(),
    ensures
        tag_count(notes.update(i, note), tag, include_archived) + (if counted(
            notes[i],
            tag,
            include_archived,
        ) {
            1int
        } else {
            0int
        }) == tag_count(notes, tag, include_archived) + (if counted(note, tag, include_archived) {
            1int
        } else {
            0int
        }),
    decreases notes.len(),
{
    let u = notes.update(i, note);
    if i == notes.len() - 1 {
        assert(u.drop_last() == notes.drop_last());
        assert(u.last() == note);
    } else {
        assert(u.drop_last() == notes.drop_last().update(i, note));
        assert(u.last() == notes.last());
        lemma_tag_count_update(notes.drop_last(), i, note, tag, include_archived);
    }
}

/// Tagging a note that does not yet carry `tag` makes it count: whatever tags it had before,
/// the count of notes with `tag`, archived ones included, goes up by exactly one, and so does
/// the count without archived notes when the note is not archived.
pub proof fn law_tagging_a_note_counts_it(
    before: Seq<Note>,
    after: Seq<Note>,
    i: int,
    tag: Seq<char>,
)
    requires
        0 <= i < before.len(),
        after.len() == before.len(),
        forall|k: int| 0 <= k < before.len() && k != i ==> #[trigger] after[k] == before[k],
        forall|j: int| 0 <= j < before[i].tags@.len() ==> #[trigger] before[i].tags@[j]@ != tag,
        after[i].status == before[i].status,
        after[i].tags@.len() == before[i].tags@.len() + 1,
        after[i].tags@.drop_last() == before[i].tags@,
        after[i].tags@.last()@ == tag,
    ensures
        tag_count(after, tag, true) == tag_count(before, tag, true) + 1,
        tag_count(after, tag, false) == tag_count(before, tag, false) + if before[i].status@
            == archived_status() {
            0int
        } else {
            1int
        },
{
    assert(after == before.update(i, after[i]));
    let last = after[i].tags@.len() - 1;
    assert(after[i].tags@[last]@ == tag);
    assert(has_tag(after[i], tag));
    assert(!has_tag(before[i], tag));
    lemma_tag_count_update(before, i, after[i], tag, true);
    lemma_tag_count_update(before, i, after[i], tag, false);
}

} // verus!
