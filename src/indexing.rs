use vstd::prelude::*;

use crate::jobs::TextSummary;
use crate::json::{member, opt_text, str_member, JsonValue};
use crate::protocol::texts_of;
use crate::text::{file_id_text, lemma_file_ids_differ, radix_text, same_text, trim, trimmed};

verus! {

/// The error that marks a file whose content the store already holds: a
/// skip, not a failure.
pub const DUPLICATE_CONTENT_HASH: &'static str = "Duplicate content hash";

/// The record that the store holds for a content hash.
#[derive(Debug)]
pub struct ExistingFileRecord {
    pub file_id: String,
}

/// What indexing did with one file.
#[derive(Debug)]
pub struct TextIndexResult {
    pub path: String,
    pub file_id: Option<String>,
    pub indexed: bool,
    pub error: Option<String>,
}

pub struct ResultView {
    pub path: Seq<char>,
    pub file_id: Option<Seq<char>>,
    pub indexed: bool,
    pub error: Option<Seq<char>>,
}

impl View for TextIndexResult {
    type V = ResultView;

    open spec fn view(&self) -> ResultView {
        ResultView {
            path: self.path@,
            file_id: opt_text(self.file_id),
            indexed: self.indexed,
            error: opt_text(self.error),
        }
    }
}

pub open spec fn result_views(s: Seq<TextIndexResult>) -> Seq<ResultView> {
    s.map_values(|r: TextIndexResult| r@)
}

/// Computes the content hash of the file at a path.
pub trait PathHasher {
    fn compute_file_hash(&self, path: &str) -> Result<String, String>;
}

/// Holds file records and their embeddings, keyed by content hash.
pub trait TextIndexStore {
    fn get_file_by_hash(&self, content_hash: &str) -> Result<Option<ExistingFileRecord>, String>;

    fn create_file(&self, file_id: &str, content_hash: &str, content: &str, path: &str) -> Result<(), String>;

    fn create_file_embeddings(&self, file_id: &str, content: &str, path: &str) -> Result<(), String>;
}

/// Lists the text files under a root path, each with its content.
pub trait TextFileSource {
    fn walk_and_get_files_content(&self, root: &str) -> Result<Vec<(String, String)>, String>;
}

/// The paths of a list, trimmed, the empty ones left out.
pub open spec fn normal_paths(vs: Seq<Seq<char>>) -> Seq<Seq<char>>
    decreases vs.len(),
{
    if vs.len() == 0 {
        Seq::empty()
    } else {
        let prev = normal_paths(vs.drop_last());
        if trimmed(vs.last()).len() > 0 {
            prev.push(trimmed(vs.last()))
        } else {
            prev
        }
    }
}

/// The paths of `file_paths`, trimmed, the empty ones left out.
pub fn normalize_paths(file_paths: Vec<String>) -> (r: Vec<String>)
    ensures
        texts_of(r@) == normal_paths(texts_of(file_paths@)),
{
    let mut out: Vec<String> = Vec::new();
    let mut i: usize = 0;
    assert(texts_of(file_paths@).subrange(0, 0) =~= Seq::<Seq<char>>::empty());
    assert(texts_of(out@) =~= Seq::<Seq<char>>::empty());
    while i < file_paths.len()
        invariant
            i <= file_paths@.len(),
            texts_of(out@) == normal_paths(texts_of(file_paths@).subrange(0, i as int)),
        decreases file_paths@.len() - i,
    {
        let ghost vs = texts_of(file_paths@).subrange(0, i + 1);
        assert(vs.drop_last() =~= texts_of(file_paths@).subrange(0, i as int));
        assert(vs.last() == file_paths@[i as int]@);
        let t = trim(file_paths[i].as_str());
        if t.as_str().unicode_len() > 0 {
            let ghost before = texts_of(out@);
            out.push(t);
            assert(texts_of(out@) =~= before.push(trimmed(vs.last())));
        }
        i = i + 1;
    }
    assert(texts_of(file_paths@).subrange(0, file_paths@.len() as int) =~= texts_of(file_paths@));
    out
}

/// Gives the ids of new file records: `file-<t>-<n>` in hexadecimal, where
/// `t` is the time in nanoseconds and `n` counts the ids given.
#[derive(Debug)]
pub struct FileIdSource {
    next_seq: u64,
}

impl FileIdSource {
    /// The number that the next id carries.
    pub closed spec fn next_seq(&self) -> u64 {
        self.next_seq
    }

    /// A source whose first id is numbered 1.
    pub fn new() -> (r: FileIdSource)
        ensures
            r.next_seq() == 1,
    {
        FileIdSource { next_seq: 1 }
    }

    /// A source whose first id is numbered `first`, so that sources started
    /// at far-apart numbers give different ids.
    pub fn starting_at(first: u64) -> (r: FileIdSource)
        ensures
            r.next_seq() == first,
    {
        FileIdSource { next_seq: first }
    }
}

/// Relies on std::time::SystemTime::now: the nanoseconds since the Unix
/// epoch, zero before it. Nothing is promised of the value.
#[verifier::external_body]
fn now_nanos() -> (r: u128) {
    std::time::SystemTime::now().duration_since(std::time::UNIX_EPOCH).unwrap_or_default().as_nanos()
}

/// A new file id: the time in nanoseconds and the source's count, both in
/// hexadecimal. Ids with different counts differ, so a source never gives
/// the same id twice: once its count is used up it gives none.
pub fn next_file_id(ids: &mut FileIdSource) -> (r: Option<String>)
    ensures
        match r {
            Some(id) => {
                &&& exists|t: nat| id@ == file_id_text(t, old(ids).next_seq() as nat)
                &&& final(ids).next_seq() == old(ids).next_seq() + 1
            },
            None => old(ids).next_seq() == u64::MAX && final(ids).next_seq() == u64::MAX,
        },
{
    let seq = ids.next_seq;
    if seq == u64::MAX {
        return None;
    }
    ids.next_seq = seq + 1;
    let nanos = now_nanos();
    let mut id = String::from_str("file-");
    let t = radix_text(nanos, 16);
    id.append(t.as_str());
    id.append("-");
    let s = radix_text(seq as u128, 16);
    id.append(s.as_str());
    assert(id@ == file_id_text(nanos as nat, seq as nat));
    Some(id)
}

/// Whether the result carries a file id of its own: one that is not a skip.
pub open spec fn has_new_id(r: ResultView) -> bool {
    !is_skip(r) && r.file_id is Some
}

/// Whether the new ids of `rs` were given by a source between the counts
/// `first` and `next`, and differ pairwise.
pub open spec fn fresh_ids(rs: Seq<ResultView>, first: nat, next: nat) -> bool {
    &&& forall|i: int|
        0 <= i < rs.len() && has_new_id(#[trigger] rs[i]) ==> exists|t: nat, n: nat|
            first <= n < next && rs[i].file_id == Some(file_id_text(t, n))
    &&& forall|i: int, j: int|
        0 <= i < j < rs.len() && has_new_id(#[trigger] rs[i]) && has_new_id(#[trigger] rs[j]) ==> rs[i].file_id
            != rs[j].file_id
}

proof fn lemma_fresh_push_other(rs: Seq<ResultView>, first: nat, next: nat, r: ResultView)
    requires
        fresh_ids(rs, first, next),
        !has_new_id(r),
    ensures
        fresh_ids(rs.push(r), first, next),
{
    let s = rs.push(r);
    assert forall|i: int| 0 <= i < rs.len() implies s[i] == rs[i] by {}
}

proof fn lemma_fresh_push_new(rs: Seq<ResultView>, first: nat, next: nat, r: ResultView, t: nat)
    requires
        fresh_ids(rs, first, next),
        first <= next,
        r.file_id == Some(file_id_text(t, next)),
    ensures
        fresh_ids(rs.push(r), first, next + 1),
{
    let s = rs.push(r);
    assert forall|i: int| 0 <= i < rs.len() implies s[i] == rs[i] by {}
    assert forall|i: int|
        0 <= i < s.len() && has_new_id(#[trigger] s[i]) implies exists|t2: nat, n: nat|
            first <= n < next + 1 && s[i].file_id == Some(file_id_text(t2, n)) by {
        if i == rs.len() {
            assert(first <= next < next + 1 && s[i].file_id == Some(file_id_text(t, next)));
        } else {
            assert(s[i] == rs[i]);
        }
    }
    assert forall|i: int, j: int|
        0 <= i < j < s.len() && has_new_id(#[trigger] s[i]) && has_new_id(#[trigger] s[j]) implies s[i].file_id
            != s[j].file_id by {
        if j == rs.len() {
            assert(s[i] == rs[i]);
            let (t1, n1) = choose|t1: nat, n1: nat| first <= n1 < next && rs[i].file_id == Some(file_id_text(t1, n1));
            lemma_file_ids_differ(t1, n1, t, next);
        } else {
            assert(s[i] == rs[i] && s[j] == rs[j]);
        }
    }
}

/// What the store's answer on a file's content hash decides: a skip where it
/// holds a record for it, and nothing yet otherwise (an error of the store
/// counts as no record).
pub open spec fn lookup_outcome(path: Seq<char>, existing: Result<Option<Seq<char>>, Seq<char>>) -> Option<ResultView> {
    match existing {
        Ok(Some(id)) => Some(ResultView { path, file_id: Some(id), indexed: false, error: Some(DUPLICATE_CONTENT_HASH@) }),
        _ => None,
    }
}

/// What writing a new record `file_id` and then its embeddings gave; the
/// embeddings are not written where the record failed.
pub open spec fn write_outcome(
    path: Seq<char>,
    file_id: Seq<char>,
    created: Result<(), Seq<char>>,
    embedded: Result<(), Seq<char>>,
) -> ResultView {
    match created {
        Err(e) => ResultView { path, file_id: Some(file_id), indexed: false, error: Some(e) },
        Ok(_) => match embedded {
            Err(e) => ResultView { path, file_id: Some(file_id), indexed: false, error: Some(e) },
            Ok(_) => ResultView { path, file_id: Some(file_id), indexed: true, error: None },
        },
    }
}

pub open spec fn lookup_view(r: Result<Option<ExistingFileRecord>, String>) -> Result<Option<Seq<char>>, Seq<char>> {
    match r {
        Ok(Some(rec)) => Ok(Some(rec.file_id@)),
        Ok(None) => Ok(None),
        Err(e) => Err(e@),
    }
}

pub open spec fn write_view(r: Result<(), String>) -> Result<(), Seq<char>> {
    match r {
        Ok(_) => Ok(()),
        Err(e) => Err(e@),
    }
}

/// The result that the store's answer on a file's content hash decides, if any.
pub fn on_lookup(path: &str, existing: Result<Option<ExistingFileRecord>, String>) -> (r: Option<TextIndexResult>)
    ensures
        match r {
            Some(x) => lookup_outcome(path@, lookup_view(existing)) == Some(x@),
            None => lookup_outcome(path@, lookup_view(existing)) is None,
        },
{
    match existing {
        Ok(Some(record)) => Some(
            TextIndexResult {
                path: String::from_str(path),
                file_id: Some(record.file_id),
                indexed: false,
                error: Some(String::from_str(DUPLICATE_CONTENT_HASH)),
            },
        ),
        _ => None,
    }
}

/// The result of a file whose record and embeddings were written, or not.
pub fn on_writes(path: &str, file_id: &str, created: Result<(), String>, embedded: Result<(), String>) -> (r:
    TextIndexResult)
    ensures
        r@ == write_outcome(path@, file_id@, write_view(created), write_view(embedded)),
{
    let path = String::from_str(path);
    let id = Some(String::from_str(file_id));
    match created {
        Err(e) => TextIndexResult { path, file_id: id, indexed: false, error: Some(e) },
        Ok(_) => match embedded {
            Err(e) => TextIndexResult { path, file_id: id, indexed: false, error: Some(e) },
            Ok(_) => TextIndexResult { path, file_id: id, indexed: true, error: None },
        },
    }
}

/// The error of a file that found the source of file ids used up.
pub const IDS_EXHAUSTED: &'static str = "file ids exhausted";

/// The result for a root that could not be walked, or a file that could not
/// be hashed: its path and the error, no file id.
pub open spec fn failed_result(path: Seq<char>, error: Seq<char>) -> ResultView {
    ResultView { path, file_id: None, indexed: false, error: Some(error) }
}

/// The result of the file at `path`, from the hasher's answer, the store's
/// answer on the content hash, the new file id (none once the ids are used
/// up), and the answers to writing the record and its embeddings. A store
/// that cannot answer counts as holding no record.
pub open spec fn file_outcome(
    path: Seq<char>,
    hashed: Result<Seq<char>, Seq<char>>,
    existing: Result<Option<Seq<char>>, Seq<char>>,
    file_id: Option<Seq<char>>,
    created: Result<(), Seq<char>>,
    embedded: Result<(), Seq<char>>,
) -> ResultView {
    match hashed {
        Err(e) => failed_result(path, e),
        Ok(_) => match lookup_outcome(path, existing) {
            Some(skip) => skip,
            None => match file_id {
                Some(id) => write_outcome(path, id, created, embedded),
                None => failed_result(path, IDS_EXHAUSTED@),
            },
        },
    }
}

/// Whether `r` is the result of the file at `path` for some answers of the
/// hasher and the store.
pub open spec fn is_file_result(path: Seq<char>, r: ResultView) -> bool {
    exists|
        hashed: Result<Seq<char>, Seq<char>>,
        existing: Result<Option<Seq<char>>, Seq<char>>,
        file_id: Option<Seq<char>>,
        created: Result<(), Seq<char>>,
        embedded: Result<(), Seq<char>>,
    | r == #[trigger] file_outcome(path, hashed, existing, file_id, created, embedded)
}

/// Whether the results `rs` are those of the root `root` for some answer of
/// the walker: one failure carrying the root, or one result per file listed.
pub open spec fn is_root_result(root: Seq<char>, rs: Seq<ResultView>) -> bool {
    ||| exists|e: Seq<char>| rs == seq![#[trigger] failed_result(root, e)]
    ||| forall|k: int| 0 <= k < rs.len() ==> is_listed_file_result(#[trigger] rs[k])
}

/// Whether `r` is the result of some listed file.
pub open spec fn is_listed_file_result(r: ResultView) -> bool {
    exists|p: Seq<char>| #[trigger] is_file_result(p, r)
}

/// The results of the roots, root after root.
pub open spec fn concat_parts(parts: Seq<Seq<ResultView>>) -> Seq<ResultView>
    decreases parts.len(),
{
    if parts.len() == 0 {
        Seq::empty()
    } else {
        concat_parts(parts.drop_last()) + parts.last()
    }
}

proof fn lemma_fresh_grow(rs: Seq<ResultView>, first: nat, next: nat, later: nat)
    requires
        fresh_ids(rs, first, next),
        next <= later,
    ensures
        fresh_ids(rs, first, later),
{
    assert forall|i: int|
        0 <= i < rs.len() && has_new_id(#[trigger] rs[i]) implies exists|t: nat, n: nat|
            first <= n < later && rs[i].file_id == Some(file_id_text(t, n)) by {
        let (t, n) = choose|t: nat, n: nat| first <= n < next && rs[i].file_id == Some(file_id_text(t, n));
        assert(first <= n < later);
    }
}

proof fn lemma_fresh_concat(a: Seq<ResultView>, b: Seq<ResultView>, first: nat, mid: nat, next: nat)
    requires
        fresh_ids(a, first, mid),
        fresh_ids(b, mid, next),
        first <= mid <= next,
    ensures
        fresh_ids(a + b, first, next),
{
    let s = a + b;
    assert forall|i: int|
        0 <= i < s.len() && has_new_id(#[trigger] s[i]) implies exists|t: nat, n: nat|
            first <= n < next && s[i].file_id == Some(file_id_text(t, n)) by {
        if i < a.len() {
            assert(s[i] == a[i]);
            let (t, n) = choose|t: nat, n: nat| first <= n < mid && a[i].file_id == Some(file_id_text(t, n));
            assert(first <= n < next);
        } else {
            assert(s[i] == b[i - a.len()]);
            let (t, n) = choose|t: nat, n: nat| mid <= n < next && b[i - a.len()].file_id == Some(file_id_text(t, n));
            assert(first <= n < next);
        }
    }
    assert forall|i: int, j: int|
        0 <= i < j < s.len() && has_new_id(#[trigger] s[i]) && has_new_id(#[trigger] s[j]) implies s[i].file_id
            != s[j].file_id by {
        if j < a.len() {
            assert(s[i] == a[i] && s[j] == a[j]);
        } else if i >= a.len() {
            assert(s[i] == b[i - a.len()] && s[j] == b[j - a.len()]);
        } else {
            assert(s[i] == a[i] && s[j] == b[j - a.len()]);
            let (t1, n1) = choose|t: nat, n: nat| first <= n < mid && a[i].file_id == Some(file_id_text(t, n));
            let (t2, n2) = choose|t: nat, n: nat|
                mid <= n < next && b[j - a.len()].file_id == Some(file_id_text(t, n));
            lemma_file_ids_differ(t1, n1, t2, n2);
        }
    }
}

/// Indexes the file at `path` with content `content`: hashes it, asks the
/// store for a record with that hash, and where there is none writes a new
/// record with a new id, then its embeddings. The result is the outcome of
/// the answers it got; a new id is the source's next one.
pub fn index_file<H: PathHasher, S: TextIndexStore>(
    path: &str,
    content: &str,
    hasher: &H,
    store: &S,
    ids: &mut FileIdSource,
) -> (r: TextIndexResult)
    ensures
        is_file_result(path@, r@),
        r@.path == path@,
        final(ids).next_seq() == old(ids).next_seq() || final(ids).next_seq() == old(ids).next_seq() + 1,
        has_new_id(r@) ==> final(ids).next_seq() == old(ids).next_seq() + 1 && exists|t: nat|
            r@.file_id == Some(file_id_text(t, old(ids).next_seq() as nat)),
{
    match hasher.compute_file_hash(path) {
        Err(error) => {
            let r = TextIndexResult { path: String::from_str(path), file_id: None, indexed: false, error: Some(error) };
            assert(r@ == file_outcome(path@, Err(error@), Ok(None), None, Ok(()), Ok(())));
            r
        },
        Ok(content_hash) => {
            let existing = store.get_file_by_hash(content_hash.as_str());
            let ghost answer = lookup_view(existing);
            match on_lookup(path, existing) {
                Some(skip) => {
                    assert(skip@ == file_outcome(path@, Ok(content_hash@), answer, None, Ok(()), Ok(())));
                    skip
                },
                None => {
                    let ghost seq = ids.next_seq() as nat;
                    match next_file_id(ids) {
                        None => {
                            let r = TextIndexResult {
                                path: String::from_str(path),
                                file_id: None,
                                indexed: false,
                                error: Some(String::from_str(IDS_EXHAUSTED)),
                            };
                            assert(r@ == file_outcome(path@, Ok(content_hash@), answer, None, Ok(()), Ok(())));
                            r
                        },
                        Some(file_id) => {
                            let created = store.create_file(file_id.as_str(), content_hash.as_str(), content, path);
                            let embedded = if created.is_ok() {
                                store.create_file_embeddings(file_id.as_str(), content, path)
                            } else {
                                Ok(())
                            };
                            let ghost (c, e) = (write_view(created), write_view(embedded));
                            let done = on_writes(path, file_id.as_str(), created, embedded);
                            assert(done@ == file_outcome(path@, Ok(content_hash@), answer, Some(file_id@), c, e));
                            done
                        },
                    }
                },
            }
        },
    }
}

/// Indexes the files that the walker listed under `root`, or records that
/// the walk failed: one failure carrying the root, or one result per listed
/// file, in the walker's order. The new ids are the source's next ones, and
/// differ pairwise.
pub fn index_root<H: PathHasher, S: TextIndexStore>(
    root: &str,
    walked: Result<Vec<(String, String)>, String>,
    hasher: &H,
    store: &S,
    ids: &mut FileIdSource,
) -> (r: Vec<TextIndexResult>)
    ensures
        old(ids).next_seq() <= final(ids).next_seq(),
        fresh_ids(result_views(r@), old(ids).next_seq() as nat, final(ids).next_seq() as nat),
        match walked {
            Err(e) => result_views(r@) == seq![failed_result(root@, e@)],
            Ok(files) => {
                &&& r@.len() == files@.len()
                &&& forall|k: int|
                    0 <= k < files@.len() ==> (#[trigger] r@[k])@.path == files@[k].0@ && is_file_result(
                        files@[k].0@,
                        r@[k]@,
                    )
            },
        },
{
    let ghost first = ids.next_seq() as nat;
    let mut results: Vec<TextIndexResult> = Vec::new();
    match walked {
        Err(error) => {
            results.push(TextIndexResult { path: String::from_str(root), file_id: None, indexed: false, error: Some(error) });
            assert(result_views(results@) =~= seq![failed_result(root@, error@)]);
        },
        Ok(files) => {
            let mut f: usize = 0;
            assert(result_views(results@) =~= Seq::<ResultView>::empty());
            while f < files.len()
                invariant
                    f <= files@.len(),
                    results@.len() == f,
                    first <= ids.next_seq(),
                    fresh_ids(result_views(results@), first, ids.next_seq() as nat),
                    forall|k: int|
                        0 <= k < f ==> (#[trigger] results@[k])@.path == files@[k].0@ && is_file_result(
                            files@[k].0@,
                            results@[k]@,
                        ),
                decreases files@.len() - f,
            {
                let ghost seq = ids.next_seq() as nat;
                let ghost before = result_views(results@);
                let r = index_file(files[f].0.as_str(), files[f].1.as_str(), hasher, store, ids);
                let ghost rv = r@;
                results.push(r);
                proof {
                    assert(result_views(results@) =~= before.push(rv));
                    if has_new_id(rv) {
                        let t = choose|t: nat| rv.file_id == Some(file_id_text(t, seq));
                        lemma_fresh_push_new(before, first, seq, rv, t);
                    } else {
                        lemma_fresh_push_other(before, first, seq, rv);
                        lemma_fresh_grow(before.push(rv), first, seq, ids.next_seq() as nat);
                    }
                }
                f = f + 1;
            }
        },
    }
    results
}

/// Indexes the text files under each of `file_paths` (trimmed, the empty
/// ones left out), root after root: each root's results are those of
/// `index_root` for the walker's answer. The new ids differ pairwise.
pub fn file_indexer<W: TextFileSource, H: PathHasher, S: TextIndexStore>(
    file_paths: Vec<String>,
    walker: &W,
    hasher: &H,
    store: &S,
    ids: &mut FileIdSource,
) -> (r: Vec<TextIndexResult>)
    ensures
        normal_paths(texts_of(file_paths@)).len() == 0 ==> r@.len() == 0,
        exists|parts: Seq<Seq<ResultView>>|
            {
                &&& parts.len() == normal_paths(texts_of(file_paths@)).len()
                &&& concat_parts(parts) == result_views(r@)
                &&& forall|i: int|
                    0 <= i < parts.len() ==> is_root_result(normal_paths(texts_of(file_paths@))[i], #[trigger] parts[i])
            },
        forall|i: int, j: int|
            0 <= i < j < r@.len() && has_new_id(#[trigger] r@[i]@) && has_new_id(#[trigger] r@[j]@) ==> r@[i]@.file_id
                != r@[j]@.file_id,
{
    let paths = normalize_paths(file_paths);
    let ghost roots = texts_of(paths@);
    let ghost first = ids.next_seq() as nat;
    let ghost mut parts: Seq<Seq<ResultView>> = Seq::empty();
    let mut results: Vec<TextIndexResult> = Vec::new();
    assert(result_views(results@) =~= Seq::<ResultView>::empty());
    let mut p: usize = 0;
    while p < paths.len()
        invariant
            p <= paths@.len(),
            roots == texts_of(paths@),
            parts.len() == p,
            concat_parts(parts) == result_views(results@),
            forall|i: int| 0 <= i < p ==> is_root_result(roots[i], #[trigger] parts[i]),
            first <= ids.next_seq(),
            fresh_ids(result_views(results@), first, ids.next_seq() as nat),
        decreases paths@.len() - p,
    {
        let ghost mid = ids.next_seq() as nat;
        let root = paths[p].as_str();
        let walked = walker.walk_and_get_files_content(root);
        let ghost walk_ok = walked is Ok;
        let mut rr = index_root(root, walked, hasher, store, ids);
        let ghost part = result_views(rr@);
        proof {
            assert(roots[p as int] == root@);
            if !(exists|e: Seq<char>| part == seq![#[trigger] failed_result(root@, e)]) {
                assert forall|k: int| 0 <= k < part.len() implies is_listed_file_result(#[trigger] part[k]) by {
                    assert(part[k] == rr@[k]@);
                    assert(is_file_result(rr@[k]@.path, part[k]));
                }
            }
            assert(is_root_result(roots[p as int], part));
        }
        let ghost before = result_views(results@);
        results.append(&mut rr);
        proof {
            assert(result_views(results@) =~= before + part);
            lemma_fresh_concat(before, part, first, mid, ids.next_seq() as nat);
            let parts2 = parts.push(part);
            assert(parts2.drop_last() =~= parts);
            assert forall|i: int| 0 <= i < p + 1 implies is_root_result(roots[i], #[trigger] parts2[i]) by {
                if i < p {
                    assert(parts2[i] == parts[i]);
                }
            }
            parts = parts2;
        }
        p = p + 1;
    }
    proof {
        let rs = result_views(results@);
        assert forall|i: int, j: int|
            0 <= i < j < results@.len() && has_new_id(#[trigger] results@[i]@) && has_new_id(
                #[trigger] results@[j]@,
            ) implies results@[i]@.file_id != results@[j]@.file_id by {
            assert(rs[i] == results@[i]@ && rs[j] == results@[j]@);
        }
        if roots.len() == 0 {
            assert(concat_parts(parts) == Seq::<ResultView>::empty());
        }
    }
    results
}

/// Two files with the same content hash: the first, against a store that
/// holds no record for it, written with the id `id`; the second, against a
/// store that answers with the record just written. The first is indexed
/// with `id`, and the second is skipped as a duplicate carrying `id`.
pub proof fn same_content_indexed_once(
    path1: Seq<char>,
    path2: Seq<char>,
    hash: Seq<char>,
    id: Seq<char>,
    second_id: Option<Seq<char>>,
    second_created: Result<(), Seq<char>>,
    second_embedded: Result<(), Seq<char>>,
)
    ensures
        ({
            let r1 = file_outcome(path1, Ok(hash), Ok(None), Some(id), Ok(()), Ok(()));
            let r2 = file_outcome(path2, Ok(hash), Ok(Some(id)), second_id, second_created, second_embedded);
            &&& r1 == ResultView { path: path1, file_id: Some(id), indexed: true, error: None }
            &&& r2 == ResultView {
                path: path2,
                file_id: Some(id),
                indexed: false,
                error: Some(DUPLICATE_CONTENT_HASH@),
            }
        }),
{
}

/// Whether a result counts as a failure: not indexed, and not a duplicate.
pub open spec fn is_failure(r: ResultView) -> bool {
    !r.indexed && r.error != Some(DUPLICATE_CONTENT_HASH@)
}

/// Whether a result is a duplicate skip.
pub open spec fn is_skip(r: ResultView) -> bool {
    r.error == Some(DUPLICATE_CONTENT_HASH@)
}

pub open spec fn count_indexed(s: Seq<ResultView>) -> nat
    decreases s.len(),
{
    if s.len() == 0 {
        0
    } else {
        count_indexed(s.drop_last()) + if s.last().indexed {
            1nat
        } else {
            0nat
        }
    }
}

pub open spec fn count_skipped(s: Seq<ResultView>) -> nat
    decreases s.len(),
{
    if s.len() == 0 {
        0
    } else {
        count_skipped(s.drop_last()) + if is_skip(s.last()) {
            1nat
        } else {
            0nat
        }
    }
}

pub open spec fn count_failed(s: Seq<ResultView>) -> nat
    decreases s.len(),
{
    if s.len() == 0 {
        0
    } else {
        count_failed(s.drop_last()) + if is_failure(s.last()) {
            1nat
        } else {
            0nat
        }
    }
}

/// The error of the first failure of `s`, the empty text where it has none
/// (or where that failure carries no error).
pub open spec fn first_failure_error(s: Seq<ResultView>) -> Seq<char>
    decreases s.len(),
{
    if s.len() == 0 {
        Seq::empty()
    } else if is_failure(s[0]) {
        match s[0].error {
            Some(e) => e,
            None => Seq::empty(),
        }
    } else {
        first_failure_error(s.drop_first())
    }
}

proof fn lemma_counts_bounded(s: Seq<ResultView>)
    ensures
        count_indexed(s) <= s.len(),
        count_skipped(s) <= s.len(),
        count_failed(s) <= s.len(),
    decreases s.len(),
{
    if s.len() > 0 {
        lemma_counts_bounded(s.drop_last());
    }
}

/// What the results of a job's text files come to: how many there are, how
/// many were indexed, skipped as duplicates and failed, and the first
/// failure's error.
pub fn summarize_results(results: &Vec<TextIndexResult>) -> (r: TextSummary)
    ensures
        r.found == results@.len(),
        r.indexed == count_indexed(result_views(results@)),
        r.skipped == count_skipped(result_views(results@)),
        r.errors == count_failed(result_views(results@)),
        r.first_error@ == first_failure_error(result_views(results@)),
{
    let ghost all = result_views(results@);
    let mut indexed: usize = 0;
    let mut skipped: usize = 0;
    let mut errors: usize = 0;
    let mut first_error: Option<String> = None;
    let mut found_failure = false;
    let mut i: usize = 0;
    assert(all.subrange(0, 0) =~= Seq::<ResultView>::empty());
    assert(all.subrange(0, all.len() as int) =~= all);
    while i < results.len()
        invariant
            i <= results@.len(),
            all == result_views(results@),
            indexed == count_indexed(all.subrange(0, i as int)),
            skipped == count_skipped(all.subrange(0, i as int)),
            errors == count_failed(all.subrange(0, i as int)),
            found_failure == (errors > 0),
            found_failure ==> first_error is Some && first_error->0@ == first_failure_error(all),
            !found_failure ==> first_failure_error(all) == first_failure_error(all.subrange(i as int, all.len() as int)),
        decreases results@.len() - i,
    {
        let ghost s1 = all.subrange(0, i + 1);
        assert(s1.drop_last() =~= all.subrange(0, i as int));
        assert(s1.last() == results@[i as int]@);
        proof {
            lemma_counts_bounded(all.subrange(0, i as int));
        }
        let r = &results[i];
        let skip = match &r.error {
            Some(e) => same_text(e.as_str(), DUPLICATE_CONTENT_HASH),
            None => false,
        };
        if r.indexed {
            indexed = indexed + 1;
        }
        if skip {
            skipped = skipped + 1;
        }
        if !r.indexed && !skip {
            if !found_failure {
                proof {
                    let rest = all.subrange(i as int, all.len() as int);
                    assert(rest[0] == all[i as int]);
                }
                first_error = Some(
                    match &r.error {
                        Some(e) => e.clone(),
                        None => String::new(),
                    },
                );
                found_failure = true;
            }
            errors = errors + 1;
        } else {
            proof {
                if !found_failure {
                    let rest = all.subrange(i as int, all.len() as int);
                    assert(rest[0] == all[i as int]);
                    assert(rest.drop_first() =~= all.subrange(i + 1, all.len() as int));
                }
            }
        }
        i = i + 1;
    }
    assert(all.subrange(0, results@.len() as int) =~= all);
    let first = if found_failure {
        match first_error {
            Some(e) => e,
            None => String::new(),
        }
    } else {
        assert(all.subrange(results@.len() as int, all.len() as int) =~= Seq::<ResultView>::empty());
        assert(first_failure_error(Seq::<ResultView>::empty()) == Seq::<char>::empty());
        String::new()
    };
    TextSummary { found: results.len(), indexed, skipped, errors, first_error: first }
}

/// Where the vector store that holds file records is reached.
#[derive(Debug)]
pub struct HelixTextStore {
    pub endpoint: String,
    pub port: u16,
    pub api_key: Option<String>,
}

/// The file id of the first item of an array, where it has one.
pub open spec fn first_item_file_id(v: JsonValue) -> Option<Seq<char>> {
    match v {
        JsonValue::Array(items) => if items.len() > 0 {
            str_member(items[0], "file_id"@)
        } else {
            None
        },
        _ => None,
    }
}

/// The file id that the store's answer to a lookup by hash carries: its own
/// `file_id`, or that of its `file` member (an object, or an array whose
/// first item holds it), or that of its first item where it is an array.
pub open spec fn existing_file_id(v: JsonValue) -> Option<Seq<char>> {
    if str_member(v, "file_id"@) is Some {
        str_member(v, "file_id"@)
    } else if member(v, "file"@) is Some && str_member(member(v, "file"@)->0, "file_id"@) is Some {
        str_member(member(v, "file"@)->0, "file_id"@)
    } else if member(v, "file"@) is Some && first_item_file_id(member(v, "file"@)->0) is Some {
        first_item_file_id(member(v, "file"@)->0)
    } else {
        first_item_file_id(v)
    }
}

fn first_item_id(v: &JsonValue) -> (r: Option<String>)
    ensures
        opt_text(r) == first_item_file_id(*v),
{
    match v.as_array() {
        Some(items) => if items.len() > 0 {
            items[0].get_str("file_id")
        } else {
            None
        },
        None => None,
    }
}

/// Whether `t` is the empty text or white space alone, as `trimmed` sees it.
pub open spec fn is_blank(t: Seq<char>) -> bool {
    trimmed(t).len() == 0
}

/// The text of a port number after its optional leading `+`.
pub open spec fn port_digits(p: Seq<char>) -> Seq<char> {
    if p.len() > 0 && p[0] == '+' {
        p.drop_first()
    } else {
        p
    }
}

/// Reads decimal digits left to right as a `u16`: the first character that
/// is not a digit, or the first digit that makes the number too large, is
/// the error.
pub open spec fn port_scan(d: Seq<char>) -> Result<nat, Seq<char>>
    decreases d.len(),
{
    if d.len() == 0 {
        Ok(0)
    } else {
        match port_scan(d.drop_last()) {
            Err(e) => Err(e),
            Ok(v) => if !('0' <= d.last() <= '9') {
                Err("invalid digit found in string"@)
            } else if v * 10 + (d.last() as int - '0' as int) > 65535 {
                Err("number too large to fit in target type"@)
            } else {
                Ok((v * 10 + (d.last() as int - '0' as int)) as nat)
            },
        }
    }
}

/// A port number read as the text of a `u16`, an optional `+` first, or
/// why it cannot be.
pub open spec fn port_value(p: Seq<char>) -> Result<nat, Seq<char>> {
    if p.len() == 0 {
        Err("cannot parse integer from empty string"@)
    } else if port_digits(p).len() == 0 {
        Err("invalid digit found in string"@)
    } else {
        port_scan(port_digits(p))
    }
}

/// Reads a port number as the text of a `u16`.
pub fn parse_port(p: &str) -> (r: Result<u16, String>)
    ensures
        match r {
            Ok(n) => port_value(p@) == Ok::<nat, Seq<char>>(n as nat),
            Err(e) => port_value(p@) == Err::<nat, Seq<char>>(e@),
        },
{
    let n = p.unicode_len();
    if n == 0 {
        return Err(String::from_str("cannot parse integer from empty string"));
    }
    let start: usize = if p.get_char(0) == '+' { 1 } else { 0 };
    let ghost d = port_digits(p@);
    assert(d =~= p@.subrange(start as int, n as int));
    if start == n {
        return Err(String::from_str("invalid digit found in string"));
    }
    let mut v: u32 = 0;
    let mut i: usize = start;
    assert(d.subrange(0, 0) =~= Seq::<char>::empty());
    while i < n
        invariant
            n == p@.len(),
            start <= i <= n,
            d == p@.subrange(start as int, n as int),
            d == port_digits(p@),
            start < n,
            v <= 65535,
            port_scan(d.subrange(0, i - start)) == Ok::<nat, Seq<char>>(v as nat),
        decreases n - i,
    {
        let c = p.get_char(i);
        let ghost d1 = d.subrange(0, i - start + 1);
        assert(d1.drop_last() =~= d.subrange(0, i - start));
        assert(d1.last() == c);
        if c < '0' || c > '9' {
            proof {
                assert(port_scan(d1) == Err::<nat, Seq<char>>("invalid digit found in string"@));
                lemma_port_scan_err(d, i - start + 1);
            }
            return Err(String::from_str("invalid digit found in string"));
        }
        let next: u32 = v * 10 + (c as u32 - '0' as u32);
        assert(next == v * 10 + (d1.last() as int - '0' as int));
        if next > 65535 {
            proof {
                assert(port_scan(d1) == Err::<nat, Seq<char>>("number too large to fit in target type"@));
                lemma_port_scan_err(d, i - start + 1);
            }
            return Err(String::from_str("number too large to fit in target type"));
        }
        v = next;
        i = i + 1;
    }
    assert(d.subrange(0, n - start) =~= d);
    Ok(v as u16)
}

proof fn lemma_port_scan_err(d: Seq<char>, k: int)
    requires
        0 <= k <= d.len(),
        port_scan(d.subrange(0, k)) is Err,
    ensures
        port_scan(d) == port_scan(d.subrange(0, k)),
    decreases d.len() - k,
{
    if k < d.len() {
        let d1 = d.subrange(0, k + 1);
        assert(d1.drop_last() =~= d.subrange(0, k));
        lemma_port_scan_err(d, k + 1);
    } else {
        assert(d.subrange(0, k) =~= d);
    }
}

impl HelixTextStore {
    /// The store that the given settings name; an absent endpoint or port
    /// takes its default (`http://localhost`, 7003), and a blank key is none.
    pub fn from_settings(endpoint: Option<String>, port: Option<String>, api_key: Option<String>) -> (r: Result<
        HelixTextStore,
        String,
    >)
        ensures
            match r {
                Ok(s) => {
                    &&& s.endpoint@ == (match endpoint {
                        Some(e) => e@,
                        None => "http://localhost"@,
                    })
                    &&& (match port {
                        Some(p) => port_value(p@) == Ok::<nat, Seq<char>>(s.port as nat),
                        None => s.port == 7003,
                    })
                    &&& opt_text(s.api_key) == (match api_key {
                        Some(k) => if is_blank(k@) {
                            None
                        } else {
                            Some(k@)
                        },
                        None => None,
                    })
                },
                Err(e) => port matches Some(p) && (port_value(p@) matches Err(why) && e@ == "invalid HELIX_PORT: "@
                    + why),
            },
    {
        let endpoint = match endpoint {
            Some(e) => e,
            None => String::from_str("http://localhost"),
        };
        let port: u16 = match port {
            Some(p) => match parse_port(p.as_str()) {
                Ok(n) => n,
                Err(why) => {
                    let mut m = String::from_str("invalid HELIX_PORT: ");
                    m.append(why.as_str());
                    return Err(m);
                },
            },
            None => 7003,
        };
        let api_key = match api_key {
            Some(k) => {
                let t = trim(k.as_str());
                if t.as_str().unicode_len() == 0 {
                    None
                } else {
                    Some(k)
                }
            },
            None => None,
        };
        Ok(HelixTextStore { endpoint, port, api_key })
    }

    /// The file id that the store's answer to a lookup by hash carries, if any.
    pub fn extract_existing_file_id(value: &JsonValue) -> (r: Option<String>)
        ensures
            opt_text(r) == existing_file_id(*value),
    {
        if let Some(id) = value.get_str("file_id") {
            return Some(id);
        }
        if let Some(file_node) = value.get("file") {
            if let Some(id) = file_node.get_str("file_id") {
                return Some(id);
            }
            if let Some(id) = first_item_id(file_node) {
                return Some(id);
            }
        }
        first_item_id(value)
    }
}

} // verus!
