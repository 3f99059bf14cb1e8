use vstd::prelude::*;

use crate::json::{opt_text, JsonValue};
use crate::protocol::{string_param, text_list_param, texts_of, usize_param};
use crate::text::{decimal_text, lower_of, lowercase, same_text, trim, trimmed};

verus! {

/// The parameters of one batch of a text walk.
#[derive(Debug)]
pub struct WalkTextBatchParams {
    pub dir: String,
    pub text_exts: Vec<String>,
    pub ignore_exts: Vec<String>,
    pub ignore_files: Vec<String>,
    pub cursor: usize,
    pub batch_size: usize,
}

/// One batch of a text walk: the text files read, where to go on, and whether
/// the walk has reached its end.
#[derive(Debug)]
pub struct WalkTextBatchResult {
    pub batch: Vec<(String, String)>,
    pub cursor: usize,
    pub done: bool,
    pub scanned_count: usize,
    pub skipped_count: usize,
}

/// One entry of a directory walk, in the walk's order.
#[derive(Debug)]
pub struct WalkEntry {
    pub path: String,
    pub is_file: bool,
    pub file_name: Option<String>,
    pub extension: Option<String>,
}

pub struct EntryView {
    pub path: Seq<char>,
    pub is_file: bool,
    pub file_name: Option<Seq<char>>,
    pub extension: Option<Seq<char>>,
}

impl View for WalkEntry {
    type V = EntryView;

    open spec fn view(&self) -> EntryView {
        EntryView {
            path: self.path@,
            is_file: self.is_file,
            file_name: opt_text(self.file_name),
            extension: opt_text(self.extension),
        }
    }
}

/// The normalized lists that decide what a walk keeps.
pub struct WalkFilters {
    pub text_exts: Seq<Seq<char>>,
    pub ignore_exts: Seq<Seq<char>>,
    pub ignore_files: Seq<Seq<char>>,
}

/// An extension as the filters write it: trimmed, lower case, with a leading dot.
pub open spec fn normal_ext(v: Seq<char>) -> Seq<char> {
    let t = lower_of(trimmed(v));
    if t.len() > 0 && t[0] != '.' {
        seq!['.'] + t
    } else {
        t
    }
}

/// The extensions of a list, normalized, the empty ones left out.
pub open spec fn normal_exts(vs: Seq<Seq<char>>) -> Seq<Seq<char>>
    decreases vs.len(),
{
    if vs.len() == 0 {
        Seq::empty()
    } else {
        let prev = normal_exts(vs.drop_last());
        if normal_ext(vs.last()).len() > 0 {
            prev.push(normal_ext(vs.last()))
        } else {
            prev
        }
    }
}

/// The file names of a list, trimmed and in lower case, the empty ones left out.
pub open spec fn normal_names(vs: Seq<Seq<char>>) -> Seq<Seq<char>>
    decreases vs.len(),
{
    if vs.len() == 0 {
        Seq::empty()
    } else {
        let prev = normal_names(vs.drop_last());
        let t = lower_of(trimmed(vs.last()));
        if t.len() > 0 {
            prev.push(t)
        } else {
            prev
        }
    }
}

/// What a walk does with an entry.
#[derive(Debug, Clone, Copy, PartialEq, Eq, Structural)]
pub enum EntryClass {
    /// Not a regular file: passed over, not counted.
    NotFile,
    /// A file whose name or extension is ignored: counted as skipped.
    Ignored,
    /// A file with a text extension: read and put in the batch.
    Text,
    /// Another file: counted as skipped.
    Other,
}

/// The extension of an entry as the filters compare it: a dot, then the
/// extension in lower case.
pub open spec fn dotted(e: Option<Seq<char>>) -> Option<Seq<char>> {
    match e {
        Some(x) => Some(seq!['.'] + lower_of(x)),
        None => None,
    }
}

pub open spec fn classify(f: WalkFilters, e: EntryView) -> EntryClass {
    if !e.is_file {
        EntryClass::NotFile
    } else if e.file_name is Some && f.ignore_files.contains(lower_of(e.file_name->0)) {
        EntryClass::Ignored
    } else if dotted(e.extension) is Some && f.ignore_exts.contains(dotted(e.extension)->0) {
        EntryClass::Ignored
    } else if dotted(e.extension) is Some && f.text_exts.contains(dotted(e.extension)->0) {
        EntryClass::Text
    } else {
        EntryClass::Other
    }
}

/// Where a walk stands: the batch so far, the cursor to go on from, the
/// counts, whether the batch is full, and whether a text file was found
/// past a full batch, so that the walk is not done.
pub struct WalkModel {
    pub batch: Seq<(Seq<char>, Seq<char>)>,
    pub cursor: nat,
    pub scanned: nat,
    pub skipped: nat,
    pub full: bool,
    pub stopped: bool,
}

/// The walk after taking in the entry at `idx`, with what reading it gave
/// where it was read. The batch is full once it holds `batch_size` files, and
/// at least one.
pub open spec fn walk_step(
    m: WalkModel,
    f: WalkFilters,
    batch_size: nat,
    idx: nat,
    e: EntryView,
    content: Option<Seq<char>>,
) -> WalkModel {
    match classify(f, e) {
        EntryClass::NotFile => WalkModel { cursor: idx + 1, ..m },
        EntryClass::Ignored => WalkModel {
            cursor: idx + 1,
            scanned: m.scanned + 1,
            skipped: m.skipped + 1,
            ..m
        },
        EntryClass::Text => {
            let b = match content {
                Some(c) => m.batch.push((e.path, c)),
                None => m.batch,
            };
            WalkModel {
                batch: b,
                cursor: idx + 1,
                scanned: m.scanned + 1,
                full: b.len() >= batch_size && b.len() > 0,
                ..m
            }
        },
        EntryClass::Other => WalkModel {
            cursor: idx + 1,
            scanned: m.scanned + 1,
            skipped: m.skipped + 1,
            ..m
        },
    }
}

/// The walk past a full batch: it only looks for one more text file, which
/// it does not take in, and stops there.
pub open spec fn look_step(m: WalkModel, f: WalkFilters, e: EntryView, content: Option<Seq<char>>) -> WalkModel {
    if classify(f, e) == EntryClass::Text && content is Some {
        WalkModel { stopped: true, ..m }
    } else {
        m
    }
}

/// The walk over `entries` that starts at `start`: entries before it are
/// passed over; once the batch is full it looks ahead for one more text file.
pub open spec fn walk_run(
    entries: Seq<(EntryView, Option<Seq<char>>)>,
    f: WalkFilters,
    start: nat,
    batch_size: nat,
) -> WalkModel
    decreases entries.len(),
{
    if entries.len() == 0 {
        WalkModel { batch: Seq::empty(), cursor: start, scanned: 0, skipped: 0, full: false, stopped: false }
    } else {
        let m = walk_run(entries.drop_last(), f, start, batch_size);
        let idx = (entries.len() - 1) as nat;
        if m.stopped || idx < start {
            m
        } else if m.full {
            look_step(m, f, entries.last().0, entries.last().1)
        } else {
            walk_step(m, f, batch_size, idx, entries.last().0, entries.last().1)
        }
    }
}

/// The text files, with their contents, that `entries` holds from `from` on.
pub open spec fn matching(
    entries: Seq<(EntryView, Option<Seq<char>>)>,
    f: WalkFilters,
    from: nat,
) -> Seq<(Seq<char>, Seq<char>)>
    decreases entries.len(),
{
    if entries.len() == 0 {
        Seq::empty()
    } else {
        let prev = matching(entries.drop_last(), f, from);
        let idx = entries.len() - 1;
        let e = entries.last();
        if idx >= from && classify(f, e.0) == EntryClass::Text && e.1 is Some {
            prev.push((e.0.path, e.1->0))
        } else {
            prev
        }
    }
}

proof fn lemma_matching_past_end(entries: Seq<(EntryView, Option<Seq<char>>)>, f: WalkFilters, from: nat)
    requires
        from >= entries.len(),
    ensures
        matching(entries, f, from) == Seq::<(Seq<char>, Seq<char>)>::empty(),
    decreases entries.len(),
{
    if entries.len() > 0 {
        lemma_matching_past_end(entries.drop_last(), f, from);
    }
}

proof fn lemma_walk_run(entries: Seq<(EntryView, Option<Seq<char>>)>, f: WalkFilters, start: nat, batch_size: nat)
    ensures
        ({
            let m = walk_run(entries, f, start, batch_size);
            let end = if start > entries.len() { start } else { entries.len() as nat };
            &&& start <= m.cursor <= end
            &&& m.batch + matching(entries, f, m.cursor) == matching(entries, f, start)
            &&& !m.full ==> !m.stopped && m.cursor == end && (m.batch.len() < batch_size || m.batch.len() == 0)
            &&& m.full ==> m.cursor > start && m.cursor <= entries.len()
            &&& m.full ==> m.batch.len() == if batch_size > 0 { batch_size } else { 1 }
            &&& m.full ==> (m.stopped <==> matching(entries, f, m.cursor).len() > 0)
        }),
    decreases entries.len(),
{
    let m = walk_run(entries, f, start, batch_size);
    if entries.len() == 0 {
        assert(m.batch + matching(entries, f, m.cursor) =~= matching(entries, f, start));
    } else {
        let p = entries.drop_last();
        lemma_walk_run(p, f, start, batch_size);
        let pm = walk_run(p, f, start, batch_size);
        let idx = p.len();
        let e = entries.last();
        let item = (e.0.path, e.1->0);
        let hit = classify(f, e.0) == EntryClass::Text && e.1 is Some;
        if pm.stopped || pm.full {
            assert(matching(entries, f, pm.cursor) == if hit {
                matching(p, f, pm.cursor).push(item)
            } else {
                matching(p, f, pm.cursor)
            });
            assert(matching(entries, f, start) == if hit {
                matching(p, f, start).push(item)
            } else {
                matching(p, f, start)
            });
            if hit {
                assert(pm.batch + matching(p, f, pm.cursor).push(item) =~= (pm.batch + matching(p, f, pm.cursor)).push(
                    item,
                ));
            }
        } else if idx >= start {
            lemma_matching_past_end(p, f, (idx + 1) as nat);
            lemma_matching_past_end(entries, f, (idx + 1) as nat);
            lemma_matching_past_end(p, f, pm.cursor);
            assert(pm.batch + matching(p, f, pm.cursor) =~= pm.batch);
            assert(pm.batch == matching(p, f, start));
            assert(matching(entries, f, start) == if hit {
                matching(p, f, start).push(item)
            } else {
                matching(p, f, start)
            });
            assert(m.batch == matching(entries, f, start));
            assert(m.batch + matching(entries, f, m.cursor) =~= m.batch);
            if m.full {
                assert(hit);
                assert(m.batch.len() == pm.batch.len() + 1);
            }
        } else {
            assert(!pm.full);
            assert(matching(entries, f, start) == matching(p, f, start));
            assert(matching(entries, f, m.cursor) == matching(p, f, m.cursor));
        }
    }
}

/// One call of a text walk keeps its promise: the batch, then the text files
/// from the returned cursor on, are the text files from the given cursor on;
/// the walk is done exactly when no text file is left past its cursor; and a
/// walk that is not done has moved its cursor forward.
pub proof fn walk_batches_cover_all(
    entries: Seq<(EntryView, Option<Seq<char>>)>,
    f: WalkFilters,
    start: nat,
    batch_size: nat,
)
    ensures
        walk_run(entries, f, start, batch_size).batch + matching(entries, f, walk_run(entries, f, start, batch_size).cursor)
            == matching(entries, f, start),
        !walk_run(entries, f, start, batch_size).stopped <==> matching(
            entries,
            f,
            walk_run(entries, f, start, batch_size).cursor,
        ).len() == 0,
        walk_run(entries, f, start, batch_size).stopped ==> start < walk_run(entries, f, start, batch_size).cursor
            <= entries.len(),
        walk_run(entries, f, start, batch_size).stopped ==> walk_run(entries, f, start, batch_size).batch.len() == (
        if batch_size > 0 {
            batch_size
        } else {
            1
        }),
{
    lemma_walk_run(entries, f, start, batch_size);
    let m = walk_run(entries, f, start, batch_size);
    if !m.full {
        lemma_matching_past_end(entries, f, m.cursor);
    }
}

/// The batches of successive calls, each from the cursor that the one before
/// returned, until one is done.
pub open spec fn all_batches(
    entries: Seq<(EntryView, Option<Seq<char>>)>,
    f: WalkFilters,
    start: nat,
    batch_size: nat,
) -> Seq<(Seq<char>, Seq<char>)>
    decreases entries.len() - start,
    via all_batches_decreases
{
    let m = walk_run(entries, f, start, batch_size);
    if !m.stopped {
        m.batch
    } else {
        m.batch + all_batches(entries, f, m.cursor, batch_size)
    }
}

#[via_fn]
proof fn all_batches_decreases(
    entries: Seq<(EntryView, Option<Seq<char>>)>,
    f: WalkFilters,
    start: nat,
    batch_size: nat,
) {
    walk_batches_cover_all(entries, f, start, batch_size);
}

/// Calls that each go on from the cursor that the one before returned, until
/// one is done, hand out every text file from the first cursor on exactly
/// once, in the walk's order.
pub proof fn walk_batches_enumerate_all(
    entries: Seq<(EntryView, Option<Seq<char>>)>,
    f: WalkFilters,
    start: nat,
    batch_size: nat,
)
    ensures
        all_batches(entries, f, start, batch_size) == matching(entries, f, start),
    decreases entries.len() - start,
{
    walk_batches_cover_all(entries, f, start, batch_size);
    let m = walk_run(entries, f, start, batch_size);
    if !m.stopped {
        assert(m.batch + matching(entries, f, m.cursor) =~= m.batch);
    } else {
        walk_batches_enumerate_all(entries, f, m.cursor, batch_size);
    }
}

/// A walk from the start whose batch size is at least the number `n` of text
/// files returns them all and is done; one whose batch size is at least 1
/// and below `n` is not done.
pub proof fn walk_batch_size_decides_done(
    entries: Seq<(EntryView, Option<Seq<char>>)>,
    f: WalkFilters,
    batch_size: nat,
)
    ensures
        batch_size >= matching(entries, f, 0).len() ==> !walk_run(entries, f, 0, batch_size).stopped
            && walk_run(entries, f, 0, batch_size).batch == matching(entries, f, 0),
        0 < batch_size < matching(entries, f, 0).len() ==> walk_run(entries, f, 0, batch_size).stopped
            && walk_run(entries, f, 0, batch_size).batch.len() == batch_size && walk_run(
            entries,
            f,
            0,
            batch_size,
        ).cursor > 0,
{
    lemma_walk_run(entries, f, 0, batch_size);
    walk_batches_cover_all(entries, f, 0, batch_size);
    let m = walk_run(entries, f, 0, batch_size);
    assert((m.batch + matching(entries, f, m.cursor)).len() == m.batch.len() + matching(entries, f, m.cursor).len());
    if !m.stopped {
        assert(m.batch + matching(entries, f, m.cursor) =~= m.batch);
    }
}

proof fn lemma_walk_counts(entries: Seq<(EntryView, Option<Seq<char>>)>, f: WalkFilters, start: nat, batch_size: nat)
    ensures
        walk_run(entries, f, start, batch_size).scanned <= entries.len(),
        walk_run(entries, f, start, batch_size).skipped <= entries.len(),
    decreases entries.len(),
{
    if entries.len() > 0 {
        lemma_walk_counts(entries.drop_last(), f, start, batch_size);
    }
}

/// Whether `x` is one of the texts of `list`.
fn holds_text(list: &Vec<String>, x: &str) -> (r: bool)
    ensures
        r == texts_of(list@).contains(x@),
{
    let mut i: usize = 0;
    while i < list.len()
        invariant
            i <= list@.len(),
            forall|k: int| 0 <= k < i ==> texts_of(list@)[k] != x@,
        decreases list@.len() - i,
    {
        if same_text(list[i].as_str(), x) {
            assert(texts_of(list@)[i as int] == x@);
            return true;
        }
        i = i + 1;
    }
    false
}

/// The extensions of `values`, trimmed, in lower case and with a leading
/// dot, the empty ones left out.
pub fn normalize_extensions(values: Vec<String>) -> (r: Vec<String>)
    ensures
        texts_of(r@) == normal_exts(texts_of(values@)),
{
    let mut out: Vec<String> = Vec::new();
    let mut i: usize = 0;
    assert(texts_of(values@).subrange(0, 0) =~= Seq::<Seq<char>>::empty());
    assert(texts_of(out@) =~= Seq::<Seq<char>>::empty());
    while i < values.len()
        invariant
            i <= values@.len(),
            texts_of(out@) == normal_exts(texts_of(values@).subrange(0, i as int)),
        decreases values@.len() - i,
    {
        let ghost vs = texts_of(values@).subrange(0, i + 1);
        assert(vs.drop_last() =~= texts_of(values@).subrange(0, i as int));
        assert(vs.last() == values@[i as int]@);
        let t = trim(values[i].as_str());
        let lower = lowercase(t.as_str());
        let n = lower.as_str().unicode_len();
        if n > 0 {
            let ghost before = texts_of(out@);
            if lower.as_str().get_char(0) != '.' {
                let mut dotted_ext = String::from_str(".");
                proof {
                    reveal_strlit(".");
                }
                dotted_ext.append(lower.as_str());
                assert(dotted_ext@ =~= seq!['.'] + lower@);
                out.push(dotted_ext);
            } else {
                out.push(lower);
            }
            assert(texts_of(out@) =~= before.push(normal_ext(vs.last())));
        }
        i = i + 1;
    }
    assert(texts_of(values@).subrange(0, values@.len() as int) =~= texts_of(values@));
    out
}

/// The file names of `values`, trimmed and in lower case, the empty ones left out.
pub fn normalize_file_names(values: Vec<String>) -> (r: Vec<String>)
    ensures
        texts_of(r@) == normal_names(texts_of(values@)),
{
    let mut out: Vec<String> = Vec::new();
    let mut i: usize = 0;
    assert(texts_of(values@).subrange(0, 0) =~= Seq::<Seq<char>>::empty());
    assert(texts_of(out@) =~= Seq::<Seq<char>>::empty());
    while i < values.len()
        invariant
            i <= values@.len(),
            texts_of(out@) == normal_names(texts_of(values@).subrange(0, i as int)),
        decreases values@.len() - i,
    {
        let ghost vs = texts_of(values@).subrange(0, i + 1);
        assert(vs.drop_last() =~= texts_of(values@).subrange(0, i as int));
        assert(vs.last() == values@[i as int]@);
        let t = trim(values[i].as_str());
        let lower = lowercase(t.as_str());
        if lower.as_str().unicode_len() > 0 {
            let ghost before = texts_of(out@);
            out.push(lower);
            assert(texts_of(out@) =~= before.push(lower_of(trimmed(vs.last()))));
        }
        i = i + 1;
    }
    assert(texts_of(values@).subrange(0, values@.len() as int) =~= texts_of(values@));
    out
}

/// The filters that the parameters of a walk give.
pub open spec fn params_filters(p: WalkTextBatchParams) -> WalkFilters {
    WalkFilters {
        text_exts: normal_exts(texts_of(p.text_exts@)),
        ignore_exts: normal_exts(texts_of(p.ignore_exts@)),
        ignore_files: normal_names(texts_of(p.ignore_files@)),
    }
}

/// The characters of the pairs of a batch.
pub open spec fn batch_texts(b: Seq<(String, String)>) -> Seq<(Seq<char>, Seq<char>)> {
    b.map_values(|e: (String, String)| (e.0@, e.1@))
}

/// Whether `r` reports the walk `m`: it is done unless a text file was found
/// past its full batch.
pub open spec fn reports(r: WalkTextBatchResult, m: WalkModel) -> bool {
    &&& batch_texts(r.batch@) == m.batch
    &&& r.cursor == m.cursor
    &&& r.done == !m.stopped
    &&& r.scanned_count == m.scanned
    &&& r.skipped_count == m.skipped
}

/// A text walk in progress: the caller hands it the walk's entries in order,
/// from the first, reads each entry that it asks for, and stops handing them
/// once it wants no more.
pub struct WalkTextBatch {
    text_exts: Vec<String>,
    ignore_exts: Vec<String>,
    ignore_files: Vec<String>,
    start: usize,
    batch_size: usize,
    batch: Vec<(String, String)>,
    cursor: usize,
    scanned: usize,
    skipped: usize,
    full: bool,
    stopped: bool,
    seen_count: usize,
    seen: Ghost<Seq<(EntryView, Option<Seq<char>>)>>,
}

impl WalkTextBatch {
    /// The filters of this walk.
    pub closed spec fn filters(&self) -> WalkFilters {
        WalkFilters {
            text_exts: texts_of(self.text_exts@),
            ignore_exts: texts_of(self.ignore_exts@),
            ignore_files: texts_of(self.ignore_files@),
        }
    }

    /// The cursor this walk started from.
    pub closed spec fn start(&self) -> nat {
        self.start as nat
    }

    /// The size at which the batch is full.
    pub closed spec fn batch_size(&self) -> nat {
        self.batch_size as nat
    }

    /// The entries handed in so far, each with what reading it gave.
    pub closed spec fn entries(&self) -> Seq<(EntryView, Option<Seq<char>>)> {
        self.seen@
    }

    /// Where the walk stands.
    pub closed spec fn model(&self) -> WalkModel {
        WalkModel {
            batch: batch_texts(self.batch@),
            cursor: self.cursor as nat,
            scanned: self.scanned as nat,
            skipped: self.skipped as nat,
            full: self.full,
            stopped: self.stopped,
        }
    }

    pub closed spec fn wf(&self) -> bool {
        &&& self.seen_count == self.seen@.len()
        &&& self.model() == walk_run(self.entries(), self.filters(), self.start(), self.batch_size())
    }

    /// Begins the walk that `params` describe.
    pub fn new(params: WalkTextBatchParams) -> (r: WalkTextBatch)
        ensures
            r.wf(),
            r.entries().len() == 0,
            r.filters() == params_filters(params),
            r.start() == params.cursor,
            r.batch_size() == params.batch_size,
    {
        let text_exts = normalize_extensions(params.text_exts);
        let ignore_exts = normalize_extensions(params.ignore_exts);
        let ignore_files = normalize_file_names(params.ignore_files);
        let r = WalkTextBatch {
            text_exts,
            ignore_exts,
            ignore_files,
            start: params.cursor,
            batch_size: params.batch_size,
            batch: Vec::new(),
            cursor: params.cursor,
            scanned: 0,
            skipped: 0,
            full: false,
            stopped: false,
            seen_count: 0,
            seen: Ghost(Seq::empty()),
        };
        assert(batch_texts(r.batch@) =~= Seq::<(Seq<char>, Seq<char>)>::empty());
        r
    }

    /// What the walk does with `entry`.
    pub fn class_of(&self, entry: &WalkEntry) -> (r: EntryClass)
        ensures
            r == classify(self.filters(), entry@),
    {
        if !entry.is_file {
            return EntryClass::NotFile;
        }
        if let Some(name) = &entry.file_name {
            let lower = lowercase(name.as_str());
            if holds_text(&self.ignore_files, lower.as_str()) {
                return EntryClass::Ignored;
            }
        }
        if let Some(ext) = &entry.extension {
            let mut dotted_ext = String::from_str(".");
            proof {
                reveal_strlit(".");
            }
            let lower = lowercase(ext.as_str());
            dotted_ext.append(lower.as_str());
            assert(dotted_ext@ =~= seq!['.'] + lower_of(ext@));
            if holds_text(&self.ignore_exts, dotted_ext.as_str()) {
                return EntryClass::Ignored;
            }
            if holds_text(&self.text_exts, dotted_ext.as_str()) {
                return EntryClass::Text;
            }
        }
        EntryClass::Other
    }

    /// Whether the walk wants no more entries: its batch is full and a text
    /// file was found past it.
    pub fn is_stopped(&self) -> (r: bool)
        requires
            self.wf(),
        ensures
            r == self.model().stopped,
    {
        self.stopped
    }

    /// Whether the walk wants the content of `entry`, the next entry of the
    /// walk: a text file at or past the cursor while the walk goes on.
    pub fn wants_content(&self, entry: &WalkEntry) -> (r: bool)
        requires
            self.wf(),
        ensures
            r == (!self.model().stopped && self.entries().len() >= self.start() && classify(
                self.filters(),
                entry@,
            ) == EntryClass::Text),
    {
        !self.stopped && self.seen_count >= self.start && self.class_of(entry) == EntryClass::Text
    }

    /// Hands the walk its next entry, with what reading it gave where it was read.
    pub fn push_entry(&mut self, entry: &WalkEntry, content: Option<String>)
        requires
            old(self).wf(),
            old(self).entries().len() < usize::MAX,
        ensures
            final(self).wf(),
            final(self).entries() == old(self).entries().push((entry@, opt_text(content))),
            final(self).filters() == old(self).filters(),
            final(self).start() == old(self).start(),
            final(self).batch_size() == old(self).batch_size(),
    {
        let ghost entries = self.seen@.push((entry@, opt_text(content)));
        proof {
            assert(entries.drop_last() =~= self.seen@);
            lemma_walk_counts(self.seen@, self.filters(), self.start(), self.batch_size());
            lemma_walk_run(self.seen@, self.filters(), self.start(), self.batch_size());
        }
        let idx = self.seen_count;
        if !self.stopped && idx >= self.start && self.full {
            if self.class_of(entry) == EntryClass::Text && content.is_some() {
                self.stopped = true;
            }
        } else if !self.stopped && idx >= self.start {
            let class = self.class_of(entry);
            self.cursor = idx + 1;
            match class {
                EntryClass::NotFile => {},
                EntryClass::Ignored => {
                    self.scanned = self.scanned + 1;
                    self.skipped = self.skipped + 1;
                },
                EntryClass::Text => {
                    self.scanned = self.scanned + 1;
                    if let Some(c) = content {
                        let ghost before = batch_texts(self.batch@);
                        self.batch.push((entry.path.clone(), c));
                        assert(batch_texts(self.batch@) =~= before.push((entry@.path, c@)));
                    }
                    self.full = self.batch.len() >= self.batch_size && self.batch.len() > 0;
                },
                EntryClass::Other => {
                    self.scanned = self.scanned + 1;
                    self.skipped = self.skipped + 1;
                },
            }
        }
        self.seen_count = idx + 1;
        self.seen = Ghost(entries);
    }

    /// The batch, and where the walk stands.
    pub fn finish(self) -> (r: WalkTextBatchResult)
        requires
            self.wf(),
        ensures
            reports(r, walk_run(self.entries(), self.filters(), self.start(), self.batch_size())),
    {
        WalkTextBatchResult {
            batch: self.batch,
            cursor: self.cursor,
            done: !self.stopped,
            scanned_count: self.scanned,
            skipped_count: self.skipped,
        }
    }
}

fn copy_entry(e: &WalkEntry) -> (r: WalkEntry)
    ensures
        r@ == e@,
{
    WalkEntry {
        path: e.path.clone(),
        is_file: e.is_file,
        file_name: match &e.file_name {
            Some(n) => Some(n.clone()),
            None => None,
        },
        extension: match &e.extension {
            Some(x) => Some(x.clone()),
            None => None,
        },
    }
}

/// The entries of a walk, each with what reading it gave.
pub open spec fn entry_views(entries: Seq<(WalkEntry, Option<String>)>) -> Seq<(EntryView, Option<Seq<char>>)> {
    entries.map_values(|e: (WalkEntry, Option<String>)| (e.0@, opt_text(e.1)))
}

/// One batch of a text walk over `entries`, each given with what reading it
/// gave (where the walk reads it).
pub fn walk_text_batch(params: WalkTextBatchParams, entries: &Vec<(WalkEntry, Option<String>)>) -> (r: WalkTextBatchResult)
    requires
        entries@.len() < usize::MAX,
    ensures
        reports(r, walk_run(entry_views(entries@), params_filters(params), params.cursor as nat, params.batch_size as nat)),
        batch_texts(r.batch@) + matching(entry_views(entries@), params_filters(params), r.cursor as nat) == matching(
            entry_views(entries@),
            params_filters(params),
            params.cursor as nat,
        ),
        r.done <==> matching(entry_views(entries@), params_filters(params), r.cursor as nat).len() == 0,
{
    let ghost filters = params_filters(params);
    let ghost start = params.cursor as nat;
    let ghost batch_size = params.batch_size as nat;
    let mut walk = WalkTextBatch::new(params);
    let mut i: usize = 0;
    while i < entries.len()
        invariant
            i <= entries@.len(),
            entries@.len() < usize::MAX,
            walk.wf(),
            walk.entries() == entry_views(entries@).subrange(0, i as int),
            walk.filters() == params_filters(params),
            walk.start() == params.cursor,
            walk.batch_size() == params.batch_size,
        decreases entries@.len() - i,
    {
        let content = match &entries[i].1 {
            Some(c) => Some(c.clone()),
            None => None,
        };
        walk.push_entry(&entries[i].0, content);
        assert(walk.entries() =~= entry_views(entries@).subrange(0, i + 1));
        i = i + 1;
    }
    assert(entry_views(entries@).subrange(0, entries@.len() as int) =~= entry_views(entries@));
    proof {
        walk_batches_cover_all(entry_views(entries@), filters, start, batch_size);
    }
    walk.finish()
}

/// Whether the parameters of a walk are those that `p` holds.
pub open spec fn walk_params_from(p: JsonValue, w: WalkTextBatchParams) -> bool {
    &&& crate::json::str_member(p, "dir"@) == Some(w.dir@)
    &&& crate::protocol::text_list_member(p, "textExts"@, false) == Some(texts_of(w.text_exts@))
    &&& crate::protocol::text_list_member(p, "ignoreExts"@, true) == Some(texts_of(w.ignore_exts@))
    &&& crate::protocol::text_list_member(p, "ignoreFiles"@, true) == Some(texts_of(w.ignore_files@))
    &&& crate::protocol::usize_member(p, "cursor"@) == Some(w.cursor as nat)
    &&& crate::protocol::usize_member(p, "batchSize"@) == Some(w.batch_size as nat)
}

/// Whether `p` holds the parameters of a walk.
pub open spec fn has_walk_params(p: JsonValue) -> bool {
    &&& crate::json::str_member(p, "dir"@) is Some
    &&& crate::protocol::text_list_member(p, "textExts"@, false) is Some
    &&& crate::protocol::text_list_member(p, "ignoreExts"@, true) is Some
    &&& crate::protocol::text_list_member(p, "ignoreFiles"@, true) is Some
    &&& crate::protocol::usize_member(p, "cursor"@) is Some
    &&& crate::protocol::usize_member(p, "batchSize"@) is Some
}

/// Reads the parameters of a walk, or says why they are not there.
pub fn parse_walk_params(params: &JsonValue) -> (r: Result<WalkTextBatchParams, String>)
    ensures
        r is Ok <==> has_walk_params(*params),
        r matches Ok(w) ==> walk_params_from(*params, w),
{
    let dir = match string_param(params, "dir") {
        Ok(d) => d,
        Err(e) => return Err(e),
    };
    let text_exts = match text_list_param(params, "textExts", false) {
        Ok(v) => v,
        Err(e) => return Err(e),
    };
    let ignore_exts = match text_list_param(params, "ignoreExts", true) {
        Ok(v) => v,
        Err(e) => return Err(e),
    };
    let ignore_files = match text_list_param(params, "ignoreFiles", true) {
        Ok(v) => v,
        Err(e) => return Err(e),
    };
    let cursor = match usize_param(params, "cursor") {
        Ok(n) => n,
        Err(e) => return Err(e),
    };
    let batch_size = match usize_param(params, "batchSize") {
        Ok(n) => n,
        Err(e) => return Err(e),
    };
    Ok(WalkTextBatchParams { dir, text_exts, ignore_exts, ignore_files, cursor, batch_size })
}

/// Whether `j` is the JSON number `n`.
pub open spec fn is_number(j: JsonValue, n: nat) -> bool {
    j matches JsonValue::Number(t) && t@ == crate::text::decimal_of(n)
}

/// Whether `j` is the array of the two strings `a` and `b`.
pub open spec fn is_text_pair(j: JsonValue, a: Seq<char>, b: Seq<char>) -> bool {
    match j {
        JsonValue::Array(pair) => pair@.len() == 2 && match (pair@[0], pair@[1]) {
            (JsonValue::Str(x), JsonValue::Str(y)) => x@ == a && y@ == b,
            _ => false,
        },
        _ => false,
    }
}

/// Whether `j` is the JSON form of the batch `r`.
pub open spec fn is_walk_json(j: JsonValue, r: WalkTextBatchResult) -> bool {
    match j {
        JsonValue::Object(f) => {
            &&& f@.len() == 5
            &&& f@[0].0@ == "batch"@
            &&& f@[0].1 matches JsonValue::Array(items) && items@.len() == r.batch@.len() && forall|i: int|
                0 <= i < items@.len() ==> is_text_pair(#[trigger] items@[i], r.batch@[i].0@, r.batch@[i].1@)
            &&& f@[1].0@ == "cursor"@ && is_number(f@[1].1, r.cursor as u64 as nat)
            &&& f@[2].0@ == "done"@ && f@[2].1 == JsonValue::Bool(r.done)
            &&& f@[3].0@ == "scannedCount"@ && is_number(f@[3].1, r.scanned_count as u64 as nat)
            &&& f@[4].0@ == "skippedCount"@ && is_number(f@[4].1, r.skipped_count as u64 as nat)
        },
        _ => false,
    }
}

fn number_value(n: usize) -> (r: JsonValue)
    ensures
        is_number(r, n as u64 as nat),
{
    JsonValue::Number(decimal_text(n as u64))
}

impl WalkTextBatchResult {
    /// The batch as the answer writes it.
    pub fn to_json(self) -> (r: JsonValue)
        ensures
            is_walk_json(r, self),
    {
        let ghost batch = self.batch@;
        let mut items: Vec<JsonValue> = Vec::new();
        let mut i: usize = 0;
        while i < self.batch.len()
            invariant
                i <= self.batch@.len(),
                items@.len() == i,
                forall|k: int|
                    0 <= k < i ==> is_text_pair(#[trigger] items@[k], self.batch@[k].0@, self.batch@[k].1@),
            decreases self.batch@.len() - i,
        {
            let mut pair: Vec<JsonValue> = Vec::new();
            pair.push(JsonValue::Str(self.batch[i].0.clone()));
            pair.push(JsonValue::Str(self.batch[i].1.clone()));
            items.push(JsonValue::Array(pair));
            i = i + 1;
        }
        let mut fields: Vec<(String, JsonValue)> = Vec::new();
        fields.push((String::from_str("batch"), JsonValue::Array(items)));
        fields.push((String::from_str("cursor"), number_value(self.cursor)));
        fields.push((String::from_str("done"), JsonValue::Bool(self.done)));
        fields.push((String::from_str("scannedCount"), number_value(self.scanned_count)));
        fields.push((String::from_str("skippedCount"), number_value(self.skipped_count)));
        JsonValue::Object(fields)
    }
}

} // verus!
