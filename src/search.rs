use vstd::prelude::*;

use crate::json::{derefs, gather_objects, objects_in, opt_text, str_member, JsonValue};
use crate::protocol::texts_of;
use crate::text::{contains, contains_text, lower_of, lowercase, same_text, trim, trimmed, word_char, is_word_char};

verus! {

/// The backend that a search hit came from; it is also the hit's label.
#[derive(Debug, Clone, Copy, PartialEq, Eq, Structural)]
pub enum Source {
    File,
    Video,
    Image,
}

/// One hit of one backend, as normalization keeps it.
#[derive(Debug)]
pub struct SearchItem {
    pub label: Source,
    pub path: String,
    pub content: Option<String>,
    pub file_id: Option<String>,
    pub video_id: Option<String>,
    pub chunk_id: Option<String>,
    pub image_id: Option<String>,
    pub content_hash: Option<String>,
}

/// What a search hit holds, as characters.
pub struct ItemView {
    pub label: Source,
    pub path: Seq<char>,
    pub content: Option<Seq<char>>,
    pub file_id: Option<Seq<char>>,
    pub video_id: Option<Seq<char>>,
    pub chunk_id: Option<Seq<char>>,
    pub image_id: Option<Seq<char>>,
    pub content_hash: Option<Seq<char>>,
}

impl View for SearchItem {
    type V = ItemView;

    open spec fn view(&self) -> ItemView {
        ItemView {
            label: self.label,
            path: self.path@,
            content: opt_text(self.content),
            file_id: opt_text(self.file_id),
            video_id: opt_text(self.video_id),
            chunk_id: opt_text(self.chunk_id),
            image_id: opt_text(self.image_id),
            content_hash: opt_text(self.content_hash),
        }
    }
}

/// The views of a list of hits.
pub open spec fn views(s: Seq<SearchItem>) -> Seq<ItemView> {
    s.map_values(|it: SearchItem| it@)
}

/// The first of two optional texts that is present.
pub open spec fn first_of(a: Option<Seq<char>>, b: Option<Seq<char>>) -> Option<Seq<char>> {
    if a is Some {
        a
    } else {
        b
    }
}

/// An optional text, the empty text standing for an absent one.
pub open spec fn or_empty(a: Option<Seq<char>>) -> Seq<char> {
    match a {
        Some(t) => t,
        None => Seq::empty(),
    }
}

/// The file hit that an object of the file backend's answer stands for: it
/// needs a non-empty `path`, and a `file_id` (or `id`) or a `content`.
pub open spec fn file_hit(obj: JsonValue) -> Option<ItemView> {
    let path = str_member(obj, "path"@);
    let file_id = first_of(str_member(obj, "file_id"@), str_member(obj, "id"@));
    let content = str_member(obj, "content"@);
    if path is None || path->0.len() == 0 || (file_id is None && content is None) {
        None
    } else {
        Some(
            ItemView {
                label: Source::File,
                path: path->0,
                content,
                file_id,
                video_id: None,
                chunk_id: None,
                image_id: None,
                content_hash: None,
            },
        )
    }
}

/// The video hit that an object of the video backend's answer stands for: it
/// needs a non-empty `path`.
pub open spec fn video_hit(obj: JsonValue) -> Option<ItemView> {
    let path = str_member(obj, "path"@);
    if path is None || path->0.len() == 0 {
        None
    } else {
        Some(
            ItemView {
                label: Source::Video,
                path: path->0,
                content: str_member(obj, "content"@),
                file_id: first_of(str_member(obj, "file_id"@), str_member(obj, "id"@)),
                video_id: str_member(obj, "video_id"@),
                chunk_id: str_member(obj, "chunk_id"@),
                image_id: None,
                content_hash: str_member(obj, "content_hash"@),
            },
        )
    }
}

/// The image hit that an object of the image backend's answer stands for: it
/// needs a non-empty `path`, and an `image_id` (or `id`) or a `content`.
pub open spec fn image_hit(obj: JsonValue) -> Option<ItemView> {
    let path = str_member(obj, "path"@);
    let image_id = first_of(str_member(obj, "image_id"@), str_member(obj, "id"@));
    let content = str_member(obj, "content"@);
    if path is None || path->0.len() == 0 || (image_id is None && content is None) {
        None
    } else {
        Some(
            ItemView {
                label: Source::Image,
                path: path->0,
                content,
                file_id: None,
                video_id: None,
                chunk_id: None,
                image_id,
                content_hash: None,
            },
        )
    }
}

/// The key under which one video backend answer repeats a hit.
pub open spec fn video_key(v: ItemView) -> (Seq<char>, Seq<char>, Seq<char>, Seq<char>) {
    (or_empty(v.video_id), or_empty(v.chunk_id), or_empty(v.file_id), v.path)
}

/// The key under which one image backend answer repeats a hit.
pub open spec fn image_key(v: ItemView) -> (Seq<char>, Seq<char>) {
    (or_empty(v.image_id), v.path)
}

/// The file hits of a sequence of objects, in order.
pub open spec fn file_hits(objs: Seq<JsonValue>) -> Seq<ItemView>
    decreases objs.len(),
{
    if objs.len() == 0 {
        Seq::empty()
    } else {
        let prev = file_hits(objs.drop_last());
        match file_hit(objs.last()) {
            Some(v) => prev.push(v),
            None => prev,
        }
    }
}

/// The video hits of a sequence of objects, in order, each key kept once.
pub open spec fn video_hits(objs: Seq<JsonValue>) -> Seq<ItemView>
    decreases objs.len(),
{
    if objs.len() == 0 {
        Seq::empty()
    } else {
        let prev = video_hits(objs.drop_last());
        match video_hit(objs.last()) {
            Some(v) => if exists|k: int| 0 <= k < prev.len() && video_key(prev[k]) == video_key(v) {
                prev
            } else {
                prev.push(v)
            },
            None => prev,
        }
    }
}

/// The image hits of a sequence of objects, in order, each key kept once.
pub open spec fn image_hits(objs: Seq<JsonValue>) -> Seq<ItemView>
    decreases objs.len(),
{
    if objs.len() == 0 {
        Seq::empty()
    } else {
        let prev = image_hits(objs.drop_last());
        match image_hit(objs.last()) {
            Some(v) => if exists|k: int| 0 <= k < prev.len() && image_key(prev[k]) == image_key(v) {
                prev
            } else {
                prev.push(v)
            },
            None => prev,
        }
    }
}

fn copy_text(o: &Option<String>) -> (r: Option<String>)
    ensures
        opt_text(r) == opt_text(*o),
{
    match o {
        Some(s) => Some(s.clone()),
        None => None,
    }
}

fn text_or_empty(o: &Option<String>) -> (r: &str)
    ensures
        r@ == or_empty(opt_text(*o)),
{
    proof {
        reveal_strlit("");
    }
    match o {
        Some(s) => s.as_str(),
        None => "",
    }
}

fn same_optional_text(a: &Option<String>, b: &Option<String>) -> (r: bool)
    ensures
        r == (or_empty(opt_text(*a)) == or_empty(opt_text(*b))),
{
    same_text(text_or_empty(a), text_or_empty(b))
}

/// The file hits of a file backend's answer.
pub fn normalize_file_results(response: &JsonValue) -> (r: Vec<SearchItem>)
    ensures
        views(r@) == file_hits(objects_in(*response)),
{
    let mut objects: Vec<&JsonValue> = Vec::new();
    gather_objects(response, &mut objects);
    assert(derefs(objects@) =~= objects_in(*response));
    let ghost objs = objects_in(*response);
    let mut items: Vec<SearchItem> = Vec::new();
    let mut i: usize = 0;
    while i < objects.len()
        invariant
            i <= objects@.len(),
            objs == derefs(objects@),
            views(items@) == file_hits(objs.subrange(0, i as int)),
        decreases objects@.len() - i,
    {
        let obj = objects[i];
        assert(objs.subrange(0, i + 1).drop_last() =~= objs.subrange(0, i as int));
        assert(objs.subrange(0, i + 1).last() == *obj);
        let path = obj.get_str("path");
        let mut file_id = obj.get_str("file_id");
        if file_id.is_none() {
            file_id = obj.get_str("id");
        }
        let content = obj.get_str("content");
        if let Some(p) = path {
            if p.as_str().unicode_len() > 0 && (file_id.is_some() || content.is_some()) {
                items.push(
                    SearchItem {
                        label: Source::File,
                        path: p,
                        content,
                        file_id,
                        video_id: None,
                        chunk_id: None,
                        image_id: None,
                        content_hash: None,
                    },
                );
            }
        }
        assert(views(items@) =~= file_hits(objs.subrange(0, i + 1)));
        i = i + 1;
    }
    assert(objs.subrange(0, objects@.len() as int) =~= objs);
    items
}

fn has_video_key(items: &Vec<SearchItem>, cand: &SearchItem) -> (r: bool)
    ensures
        r == exists|k: int| 0 <= k < items@.len() && video_key(views(items@)[k]) == video_key(cand@),
{
    let mut i: usize = 0;
    while i < items.len()
        invariant
            i <= items@.len(),
            forall|k: int| 0 <= k < i ==> video_key(views(items@)[k]) != video_key(cand@),
        decreases items@.len() - i,
    {
        let it = &items[i];
        if same_optional_text(&it.video_id, &cand.video_id) && same_optional_text(&it.chunk_id, &cand.chunk_id)
            && same_optional_text(&it.file_id, &cand.file_id) && same_text(it.path.as_str(), cand.path.as_str()) {
            assert(video_key(views(items@)[i as int]) == video_key(cand@));
            return true;
        }
        i = i + 1;
    }
    false
}

fn has_image_key(items: &Vec<SearchItem>, cand: &SearchItem) -> (r: bool)
    ensures
        r == exists|k: int| 0 <= k < items@.len() && image_key(views(items@)[k]) == image_key(cand@),
{
    let mut i: usize = 0;
    while i < items.len()
        invariant
            i <= items@.len(),
            forall|k: int| 0 <= k < i ==> image_key(views(items@)[k]) != image_key(cand@),
        decreases items@.len() - i,
    {
        let it = &items[i];
        if same_optional_text(&it.image_id, &cand.image_id) && same_text(it.path.as_str(), cand.path.as_str()) {
            assert(image_key(views(items@)[i as int]) == image_key(cand@));
            return true;
        }
        i = i + 1;
    }
    false
}

/// The video hits of a video backend's answer, each key kept once.
pub fn normalize_video_results(response: &JsonValue) -> (r: Vec<SearchItem>)
    ensures
        views(r@) == video_hits(objects_in(*response)),
{
    let mut objects: Vec<&JsonValue> = Vec::new();
    gather_objects(response, &mut objects);
    assert(derefs(objects@) =~= objects_in(*response));
    let ghost objs = objects_in(*response);
    let mut items: Vec<SearchItem> = Vec::new();
    let mut i: usize = 0;
    while i < objects.len()
        invariant
            i <= objects@.len(),
            objs == derefs(objects@),
            views(items@) == video_hits(objs.subrange(0, i as int)),
        decreases objects@.len() - i,
    {
        let obj = objects[i];
        assert(objs.subrange(0, i + 1).drop_last() =~= objs.subrange(0, i as int));
        assert(objs.subrange(0, i + 1).last() == *obj);
        let chunk_id = obj.get_str("chunk_id");
        let video_id = obj.get_str("video_id");
        let mut file_id = obj.get_str("file_id");
        if file_id.is_none() {
            file_id = obj.get_str("id");
        }
        let path = obj.get_str("path");
        let content = obj.get_str("content");
        let content_hash = obj.get_str("content_hash");
        if let Some(p) = path {
            if p.as_str().unicode_len() > 0 {
                let item = SearchItem {
                    label: Source::Video,
                    path: p,
                    content,
                    file_id,
                    video_id,
                    chunk_id,
                    image_id: None,
                    content_hash,
                };
                if !has_video_key(&items, &item) {
                    items.push(item);
                }
            }
        }
        assert(views(items@) =~= video_hits(objs.subrange(0, i + 1)));
        i = i + 1;
    }
    assert(objs.subrange(0, objects@.len() as int) =~= objs);
    items
}

/// The image hits of an image backend's answer, each key kept once.
pub fn normalize_image_results(response: &JsonValue) -> (r: Vec<SearchItem>)
    ensures
        views(r@) == image_hits(objects_in(*response)),
{
    let mut objects: Vec<&JsonValue> = Vec::new();
    gather_objects(response, &mut objects);
    assert(derefs(objects@) =~= objects_in(*response));
    let ghost objs = objects_in(*response);
    let mut items: Vec<SearchItem> = Vec::new();
    let mut i: usize = 0;
    while i < objects.len()
        invariant
            i <= objects@.len(),
            objs == derefs(objects@),
            views(items@) == image_hits(objs.subrange(0, i as int)),
        decreases objects@.len() - i,
    {
        let obj = objects[i];
        assert(objs.subrange(0, i + 1).drop_last() =~= objs.subrange(0, i as int));
        assert(objs.subrange(0, i + 1).last() == *obj);
        let mut image_id = obj.get_str("image_id");
        if image_id.is_none() {
            image_id = obj.get_str("id");
        }
        let path = obj.get_str("path");
        let content = obj.get_str("content");
        if let Some(p) = path {
            if p.as_str().unicode_len() > 0 && (image_id.is_some() || content.is_some()) {
                let item = SearchItem {
                    label: Source::Image,
                    path: p,
                    content,
                    file_id: None,
                    video_id: None,
                    chunk_id: None,
                    image_id,
                    content_hash: None,
                };
                if !has_image_key(&items, &item) {
                    items.push(item);
                }
            }
        }
        assert(views(items@) =~= image_hits(objs.subrange(0, i + 1)));
        i = i + 1;
    }
    assert(objs.subrange(0, objects@.len() as int) =~= objs);
    items
}

/// The pieces of a query between the characters that are not word
/// characters, empty pieces included (the empty query is one empty piece).
pub open spec fn split_pieces(q: Seq<char>) -> Seq<Seq<char>>
    decreases q.len(),
{
    if q.len() == 0 {
        seq![Seq::empty()]
    } else {
        let prev = split_pieces(q.drop_last());
        if is_word_char(q.last()) {
            prev.update(prev.len() - 1, prev.last().push(q.last()))
        } else {
            prev.push(Seq::empty())
        }
    }
}

/// The keyword that a piece gives: trimmed, in lower case.
pub open spec fn piece_keyword(p: Seq<char>) -> Seq<char> {
    lower_of(trimmed(p))
}

/// The keyword of each piece, the empty ones left out.
pub open spec fn keywords_of_pieces(ps: Seq<Seq<char>>) -> Seq<Seq<char>>
    decreases ps.len(),
{
    if ps.len() == 0 {
        Seq::empty()
    } else {
        let prev = keywords_of_pieces(ps.drop_last());
        let k = piece_keyword(ps.last());
        if k.len() > 0 {
            prev.push(k)
        } else {
            prev
        }
    }
}

/// The keywords of a query.
pub open spec fn query_keywords(q: Seq<char>) -> Seq<Seq<char>> {
    keywords_of_pieces(split_pieces(q))
}

/// Whether a hit's content or path, in lower case, holds one of the keywords.
pub open spec fn keyword_match(v: ItemView, kws: Seq<Seq<char>>) -> bool {
    exists|i: int|
        0 <= i < kws.len() && (contains(lower_of(or_empty(v.content)), kws[i]) || contains(
            lower_of(v.path),
            kws[i],
        ))
}

fn push_keyword(kws: &mut Vec<String>, piece: &str)
    ensures
        texts_of(final(kws)@) == (if piece_keyword(piece@).len() > 0 {
            texts_of(old(kws)@).push(piece_keyword(piece@))
        } else {
            texts_of(old(kws)@)
        }),
{
    let t = trim(piece);
    let k = lowercase(t.as_str());
    if k.as_str().unicode_len() > 0 {
        kws.push(k);
        assert(texts_of(kws@) =~= texts_of(old(kws)@).push(piece_keyword(piece@)));
    }
}

/// The keywords of a query: its pieces between characters that are neither
/// alphanumeric nor `_`, trimmed and in lower case, the empty ones left out.
pub fn extract_keywords(query: &str) -> (r: Vec<String>)
    ensures
        texts_of(r@) == query_keywords(query@),
{
    let n = query.unicode_len();
    let mut kws: Vec<String> = Vec::new();
    let mut start: usize = 0;
    let mut i: usize = 0;
    let ghost mut done: Seq<Seq<char>> = Seq::empty();
    assert(query@.subrange(0, 0) =~= Seq::<char>::empty());
    assert(split_pieces(query@.subrange(0, 0)) =~= done.push(query@.subrange(0, 0)));
    while i < n
        invariant
            n == query@.len(),
            start <= i <= n,
            split_pieces(query@.subrange(0, i as int)) == done.push(query@.subrange(start as int, i as int)),
            texts_of(kws@) == keywords_of_pieces(done),
        decreases n - i,
    {
        let c = query.get_char(i);
        let ghost q1 = query@.subrange(0, i + 1);
        assert(q1.drop_last() =~= query@.subrange(0, i as int));
        assert(q1.last() == c);
        if word_char(c) {
            assert(query@.subrange(start as int, i + 1) =~= query@.subrange(start as int, i as int).push(c));
            assert(split_pieces(q1) =~= done.push(query@.subrange(start as int, i + 1)));
        } else {
            let piece = query.substring_char(start, i);
            push_keyword(&mut kws, piece);
            proof {
                let p = query@.subrange(start as int, i as int);
                assert(done.push(p).drop_last() =~= done);
                done = done.push(p);
                assert(query@.subrange(i + 1, i + 1) =~= Seq::<char>::empty());
                assert(split_pieces(q1) =~= done.push(query@.subrange(i + 1, i + 1)));
            }
            start = i + 1;
        }
        i = i + 1;
    }
    let piece = query.substring_char(start, n);
    push_keyword(&mut kws, piece);
    proof {
        let p = query@.subrange(start as int, n as int);
        assert(done.push(p).drop_last() =~= done);
        assert(query@.subrange(0, n as int) =~= query@);
    }
    kws
}

/// Whether the hit's content or path, in lower case, holds one of `keywords`
/// (never, when there are none).
pub fn has_keyword_match(item: &SearchItem, keywords: &Vec<String>) -> (r: bool)
    ensures
        r == keyword_match(item@, texts_of(keywords@)),
{
    if keywords.len() == 0 {
        return false;
    }
    let content_lower = lowercase(text_or_empty(&item.content));
    let path_lower = lowercase(item.path.as_str());
    let mut i: usize = 0;
    while i < keywords.len()
        invariant
            i <= keywords@.len(),
            content_lower@ == lower_of(or_empty(item@.content)),
            path_lower@ == lower_of(item@.path),
            forall|k: int|
                0 <= k < i ==> !(contains(content_lower@, texts_of(keywords@)[k]) || contains(
                    path_lower@,
                    texts_of(keywords@)[k],
                )),
        decreases keywords@.len() - i,
    {
        let kw = keywords[i].as_str();
        assert(texts_of(keywords@)[i as int] == kw@);
        if contains_text(content_lower.as_str(), kw) || contains_text(path_lower.as_str(), kw) {
            return true;
        }
        i = i + 1;
    }
    false
}

/// A hit with its place in its own backend's list and whether it matched a
/// keyword. Its score is `1 / (rank + 61)`, times 1.2 when it matched: a
/// weight of 5 or 6 over `5 * (rank + 61)`, compared exactly.
#[derive(Debug)]
pub struct ScoredItem {
    pub item: SearchItem,
    pub rank: usize,
    pub boosted: bool,
}

pub struct ScoredView {
    pub item: ItemView,
    pub rank: nat,
    pub boosted: bool,
}

impl View for ScoredItem {
    type V = ScoredView;

    open spec fn view(&self) -> ScoredView {
        ScoredView { item: self.item@, rank: self.rank as nat, boosted: self.boosted }
    }
}

pub open spec fn scored_views(s: Seq<ScoredItem>) -> Seq<ScoredView> {
    s.map_values(|it: ScoredItem| it@)
}

/// The numerator of a score over `5 * (rank + 61)`.
pub open spec fn weight(a: ScoredView) -> int {
    if a.boosted {
        6
    } else {
        5
    }
}

/// Whether `a` scores strictly higher than `b`.
pub open spec fn higher(a: ScoredView, b: ScoredView) -> bool {
    weight(a) * (b.rank + 61) > weight(b) * (a.rank + 61)
}

/// Whether `a` and `b` score the same.
pub open spec fn same_score(a: ScoredView, b: ScoredView) -> bool {
    weight(a) * (b.rank + 61) == weight(b) * (a.rank + 61)
}

/// Whether `a` goes before `b` in the fused list: a higher score, or the same
/// score and `a` is a video hit while `b` is not.
pub open spec fn before(a: ScoredView, b: ScoredView) -> bool {
    higher(a, b) || (same_score(a, b) && a.item.label == Source::Video && b.item.label != Source::Video)
}

/// The hits of one backend, scored by their place in its list and by keywords.
pub open spec fn scored(list: Seq<ItemView>, kws: Seq<Seq<char>>) -> Seq<ScoredView> {
    Seq::new(
        list.len(),
        |i: int| ScoredView { item: list[i], rank: i as nat, boosted: keyword_match(list[i], kws) },
    )
}

/// Where `x` goes into a ranked list: before the first element that it goes before.
pub open spec fn insert_pos(s: Seq<ScoredView>, x: ScoredView) -> nat
    decreases s.len(),
{
    if s.len() == 0 {
        0
    } else if before(x, s[0]) {
        0
    } else {
        1 + insert_pos(s.drop_first(), x)
    }
}

/// A list ranked by score, video hits first among equal scores, and otherwise
/// in the order of `s`.
pub open spec fn rank_all(s: Seq<ScoredView>) -> Seq<ScoredView>
    decreases s.len(),
{
    if s.len() == 0 {
        Seq::empty()
    } else {
        let r = rank_all(s.drop_last());
        r.insert(insert_pos(r, s.last()) as int, s.last())
    }
}

/// The key under which the fused list keeps a hit once.
pub open spec fn result_key(v: ItemView) -> (Source, Seq<char>, Seq<char>, Seq<char>, Seq<char>, Seq<char>) {
    (
        v.label,
        or_empty(first_of(v.file_id, v.chunk_id)),
        or_empty(v.video_id),
        or_empty(v.image_id),
        v.path,
        or_empty(v.content),
    )
}

/// `s` with each element whose key an earlier one has left out.
pub open spec fn dedup_first(s: Seq<ScoredView>) -> Seq<ScoredView>
    decreases s.len(),
{
    if s.len() == 0 {
        Seq::empty()
    } else {
        let prev = dedup_first(s.drop_last());
        if exists|k: int| 0 <= k < prev.len() && result_key(prev[k].item) == result_key(s.last().item) {
            prev
        } else {
            prev.push(s.last())
        }
    }
}

/// The fused, ranked and deduplicated hits of the three backends' answers.
pub open spec fn fused(file: JsonValue, video: JsonValue, image: JsonValue, query: Seq<char>) -> Seq<ScoredView> {
    let kws = query_keywords(query);
    dedup_first(
        rank_all(
            scored(file_hits(objects_in(file)), kws) + scored(video_hits(objects_in(video)), kws)
                + scored(image_hits(objects_in(image)), kws),
        ),
    )
}

fn copy_item(it: &SearchItem) -> (r: SearchItem)
    ensures
        r@ == it@,
{
    SearchItem {
        label: it.label,
        path: it.path.clone(),
        content: copy_text(&it.content),
        file_id: copy_text(&it.file_id),
        video_id: copy_text(&it.video_id),
        chunk_id: copy_text(&it.chunk_id),
        image_id: copy_text(&it.image_id),
        content_hash: copy_text(&it.content_hash),
    }
}

fn copy_scored(it: &ScoredItem) -> (r: ScoredItem)
    ensures
        r@ == it@,
{
    ScoredItem { item: copy_item(&it.item), rank: it.rank, boosted: it.boosted }
}

/// Scores the hits of one backend, in its order, and appends them to `out`.
pub fn score_items(items: &Vec<SearchItem>, keywords: &Vec<String>, out: &mut Vec<ScoredItem>)
    ensures
        scored_views(final(out)@) == scored_views(old(out)@) + scored(views(items@), texts_of(keywords@)),
{
    let ghost start = scored_views(out@);
    let mut i: usize = 0;
    while i < items.len()
        invariant
            i <= items@.len(),
            scored_views(out@) == start + scored(views(items@), texts_of(keywords@)).subrange(0, i as int),
        decreases items@.len() - i,
    {
        let boosted = has_keyword_match(&items[i], keywords);
        let ghost before = scored_views(out@);
        out.push(ScoredItem { item: copy_item(&items[i]), rank: i, boosted });
        assert(views(items@)[i as int] == items@[i as int]@);
        assert(scored_views(out@).last() == scored(views(items@), texts_of(keywords@))[i as int]);
        assert(scored_views(out@) =~= before.push(scored(views(items@), texts_of(keywords@))[i as int]));
        assert(scored_views(out@) =~= start + scored(views(items@), texts_of(keywords@)).subrange(0, i + 1));
        i = i + 1;
    }
    assert(scored(views(items@), texts_of(keywords@)).subrange(0, items@.len() as int)
        =~= scored(views(items@), texts_of(keywords@)));
}

/// Whether `a` goes before `b` in the fused list.
pub fn goes_before(a: &ScoredItem, b: &ScoredItem) -> (r: bool)
    ensures
        r == before(a@, b@),
{
    let wa: u128 = if a.boosted { 6 } else { 5 };
    let wb: u128 = if b.boosted { 6 } else { 5 };
    let lhs: u128 = wa * (b.rank as u128 + 61);
    let rhs: u128 = wb * (a.rank as u128 + 61);
    lhs > rhs || (lhs == rhs && a.item.label == Source::Video && b.item.label != Source::Video)
}

/// Ranks a list as the fused list does: by score, video hits first among
/// equal scores, otherwise in the given order.
pub fn rank_items(items: &Vec<ScoredItem>) -> (r: Vec<ScoredItem>)
    ensures
        scored_views(r@) == rank_all(scored_views(items@)),
{
    let mut out: Vec<ScoredItem> = Vec::new();
    let mut i: usize = 0;
    while i < items.len()
        invariant
            i <= items@.len(),
            scored_views(out@) == rank_all(scored_views(items@).subrange(0, i as int)),
        decreases items@.len() - i,
    {
        let x = &items[i];
        let ghost sorted = scored_views(out@);
        let mut p: usize = 0;
        assert(sorted.subrange(0, sorted.len() as int) =~= sorted);
        while p < out.len() && !goes_before(x, &out[p])
            invariant
                p <= out@.len(),
                sorted == scored_views(out@),
                insert_pos(sorted, x@) == p + insert_pos(sorted.subrange(p as int, sorted.len() as int), x@),
            decreases out@.len() - p,
        {
            assert(sorted.subrange(p as int, sorted.len() as int).drop_first()
                =~= sorted.subrange(p + 1, sorted.len() as int));
            p = p + 1;
        }
        proof {
            let rest = sorted.subrange(p as int, sorted.len() as int);
            if p < sorted.len() {
                assert(rest[0] == sorted[p as int]);
            }
            assert(insert_pos(rest, x@) == 0);
            let s1 = scored_views(items@).subrange(0, i + 1);
            assert(s1.drop_last() =~= scored_views(items@).subrange(0, i as int));
            assert(s1.last() == x@);
        }
        out.insert(p, copy_scored(x));
        assert(scored_views(out@) =~= sorted.insert(p as int, x@));
        i = i + 1;
    }
    assert(scored_views(items@).subrange(0, items@.len() as int) =~= scored_views(items@));
    out
}

fn same_result_key(a: &SearchItem, b: &SearchItem) -> (r: bool)
    ensures
        r == (result_key(a@) == result_key(b@)),
{
    let fa = if a.file_id.is_some() { &a.file_id } else { &a.chunk_id };
    let fb = if b.file_id.is_some() { &b.file_id } else { &b.chunk_id };
    a.label == b.label && same_optional_text(fa, fb) && same_optional_text(&a.video_id, &b.video_id)
        && same_optional_text(&a.image_id, &b.image_id) && same_text(a.path.as_str(), b.path.as_str())
        && same_optional_text(&a.content, &b.content)
}

/// Keeps the first hit of each key, in order.
pub fn dedup_items(items: Vec<ScoredItem>) -> (r: Vec<ScoredItem>)
    ensures
        scored_views(r@) == dedup_first(scored_views(items@)),
{
    let mut out: Vec<ScoredItem> = Vec::new();
    let mut i: usize = 0;
    while i < items.len()
        invariant
            i <= items@.len(),
            scored_views(out@) == dedup_first(scored_views(items@).subrange(0, i as int)),
        decreases items@.len() - i,
    {
        let x = &items[i];
        let ghost prev = scored_views(out@);
        let mut seen = false;
        let mut k: usize = 0;
        while k < out.len()
            invariant
                k <= out@.len(),
                prev == scored_views(out@),
                seen == exists|j: int| 0 <= j < k && result_key(prev[j].item) == result_key(x@.item),
            decreases out@.len() - k,
        {
            assert(prev[k as int] == out@[k as int]@);
            if same_result_key(&out[k].item, &x.item) {
                seen = true;
            }
            assert(seen == exists|j: int| 0 <= j < k + 1 && result_key(prev[j].item) == result_key(x@.item)) by {
                if seen && !(exists|j: int| 0 <= j < k && result_key(prev[j].item) == result_key(x@.item)) {
                    assert(result_key(prev[k as int].item) == result_key(x@.item));
                }
            }
            k = k + 1;
        }
        proof {
            let s1 = scored_views(items@).subrange(0, i + 1);
            assert(s1.drop_last() =~= scored_views(items@).subrange(0, i as int));
            assert(s1.last() == x@);
        }
        if !seen {
            out.push(copy_scored(x));
            assert(scored_views(out@) =~= prev.push(x@));
        }
        i = i + 1;
    }
    assert(scored_views(items@).subrange(0, items@.len() as int) =~= scored_views(items@));
    out
}

/// The hits of the three backends' answers, each list scored, then fused,
/// ranked and deduplicated.
pub fn fuse_results(
    query: &str,
    file_response: &JsonValue,
    video_response: &JsonValue,
    image_response: &JsonValue,
) -> (r: Vec<ScoredItem>)
    ensures
        scored_views(r@) == fused(*file_response, *video_response, *image_response, query@),
{
    let file_items = normalize_file_results(file_response);
    let video_items = normalize_video_results(video_response);
    let image_items = normalize_image_results(image_response);
    let keywords = extract_keywords(query);
    let mut combined: Vec<ScoredItem> = Vec::new();
    score_items(&file_items, &keywords, &mut combined);
    score_items(&video_items, &keywords, &mut combined);
    score_items(&image_items, &keywords, &mut combined);
    assert(scored_views(combined@) =~= Seq::<ScoredView>::empty() + scored(views(file_items@), texts_of(keywords@))
        + scored(views(video_items@), texts_of(keywords@)) + scored(views(image_items@), texts_of(keywords@)));
    let ranked = rank_items(&combined);
    dedup_items(ranked)
}

/// Whether no element of `s` goes before an element ahead of it.
pub open spec fn is_ranked(s: Seq<ScoredView>) -> bool {
    forall|i: int, j: int| 0 <= i < j < s.len() ==> !before(#[trigger] s[j], #[trigger] s[i])
}

proof fn lemma_higher_trans(a: ScoredView, b: ScoredView, c: ScoredView)
    requires
        higher(a, b) || same_score(a, b),
        higher(b, c) || same_score(b, c),
        higher(a, b) || higher(b, c),
    ensures
        higher(a, c),
{
    let (wa, wb, wc) = (weight(a), weight(b), weight(c));
    let (da, db, dc) = (a.rank + 61, b.rank + 61, c.rank + 61);
    assert(wa * db * dc >= wb * da * dc) by (nonlinear_arith)
        requires
            wa * db >= wb * da,
            dc > 0,
    ;
    assert(wb * dc * da >= wc * db * da) by (nonlinear_arith)
        requires
            wb * dc >= wc * db,
            da > 0,
    ;
    if higher(a, b) {
        assert(wa * db * dc > wb * da * dc) by (nonlinear_arith)
            requires
                wa * db > wb * da,
                dc > 0,
        ;
    } else {
        assert(wb * dc * da > wc * db * da) by (nonlinear_arith)
            requires
                wb * dc > wc * db,
                da > 0,
        ;
    }
    assert(wa * dc * db > wc * da * db) by (nonlinear_arith)
        requires
            wa * db * dc > wc * db * da || (wa * db * dc >= wb * da * dc && wb * dc * da > wc * db * da)
                || (wa * db * dc > wb * da * dc && wb * dc * da >= wc * db * da),
    ;
    assert(wa * dc > wc * da) by (nonlinear_arith)
        requires
            wa * dc * db > wc * da * db,
            db > 0,
    ;
}

proof fn lemma_before_asym(a: ScoredView, b: ScoredView)
    requires
        before(a, b),
    ensures
        !before(b, a),
{
}

proof fn lemma_before_trans(a: ScoredView, b: ScoredView, c: ScoredView)
    requires
        before(a, b),
        before(b, c),
    ensures
        before(a, c),
{
    if higher(a, b) || higher(b, c) {
        lemma_higher_trans(a, b, c);
    }
}

proof fn lemma_insert_pos(s: Seq<ScoredView>, x: ScoredView)
    ensures
        insert_pos(s, x) <= s.len(),
        forall|i: int| 0 <= i < insert_pos(s, x) ==> !before(x, #[trigger] s[i]),
        insert_pos(s, x) < s.len() ==> before(x, s[insert_pos(s, x) as int]),
    decreases s.len(),
{
    if s.len() > 0 && !before(x, s[0]) {
        lemma_insert_pos(s.drop_first(), x);
        assert forall|i: int| 0 <= i < insert_pos(s, x) implies !before(x, #[trigger] s[i]) by {
            if i > 0 {
                assert(s[i] == s.drop_first()[i - 1]);
            }
        }
    }
}

proof fn lemma_rank_all_ranked(s: Seq<ScoredView>)
    ensures
        is_ranked(rank_all(s)),
        rank_all(s).len() == s.len(),
    decreases s.len(),
{
    if s.len() > 0 {
        let r = rank_all(s.drop_last());
        lemma_rank_all_ranked(s.drop_last());
        let x = s.last();
        let p = insert_pos(r, x) as int;
        lemma_insert_pos(r, x);
        let r2 = r.insert(p, x);
        assert forall|i: int, j: int| 0 <= i < j < r2.len() implies !before(#[trigger] r2[j], #[trigger] r2[i]) by {
            if j < p {
                assert(r2[i] == r[i] && r2[j] == r[j]);
            } else if j == p {
                assert(r2[i] == r[i]);
            } else if i < p {
                assert(r2[i] == r[i] && r2[j] == r[j - 1]);
            } else if i == p {
                assert(r2[j] == r[j - 1]);
                if j - 1 > p {
                    if before(r[j - 1], x) {
                        lemma_before_trans(r[j - 1], x, r[p]);
                    }
                } else {
                    lemma_before_asym(x, r[p]);
                }
            } else {
                assert(r2[i] == r[i - 1] && r2[j] == r[j - 1]);
            }
        }
    }
}

proof fn lemma_dedup_first(s: Seq<ScoredView>)
    requires
        is_ranked(s),
    ensures
        is_ranked(dedup_first(s)),
        forall|i: int| 0 <= i < dedup_first(s).len() ==> exists|k: int| 0 <= k < s.len() && s[k] == #[trigger] dedup_first(s)[i],
        forall|i: int, j: int|
            0 <= i < j < dedup_first(s).len() ==> result_key(#[trigger] dedup_first(s)[i].item) != result_key(
                #[trigger] dedup_first(s)[j].item,
            ),
    decreases s.len(),
{
    if s.len() > 0 {
        let s1 = s.drop_last();
        assert(is_ranked(s1)) by {
            assert forall|i: int, j: int| 0 <= i < j < s1.len() implies !before(#[trigger] s1[j], #[trigger] s1[i]) by {
                assert(s1[i] == s[i] && s1[j] == s[j]);
            }
        }
        lemma_dedup_first(s1);
        let prev = dedup_first(s1);
        let d = dedup_first(s);
        assert forall|i: int| 0 <= i < d.len() implies exists|k: int| 0 <= k < s.len() && s[k] == #[trigger] d[i] by {
            if i < prev.len() {
                assert(d[i] == prev[i]);
                let k = choose|k: int| 0 <= k < s1.len() && s1[k] == prev[i];
                assert(s[k] == s1[k]);
            } else {
                assert(d[i] == s[s.len() - 1]);
            }
        }
        if d.len() > prev.len() {
            assert forall|i: int, j: int| 0 <= i < j < d.len() implies !before(#[trigger] d[j], #[trigger] d[i]) by {
                if j < prev.len() {
                    assert(d[i] == prev[i] && d[j] == prev[j]);
                } else {
                    assert(d[i] == prev[i]);
                    let k = choose|k: int| 0 <= k < s1.len() && s1[k] == prev[i];
                    assert(s[k] == s1[k]);
                    assert(d[j] == s[s.len() - 1]);
                }
            }
            assert forall|i: int, j: int|
                0 <= i < j < d.len() implies result_key(#[trigger] d[i].item) != result_key(#[trigger] d[j].item) by {
                if j < prev.len() {
                    assert(d[i] == prev[i] && d[j] == prev[j]);
                } else {
                    assert(d[i] == prev[i]);
                }
            }
        }
    }
}

/// The fused list of any three backend answers keeps each key once, never
/// rises in score along the list, and among equal scores puts video hits
/// before the others.
pub proof fn fused_results_ranked(file: JsonValue, video: JsonValue, image: JsonValue, query: Seq<char>)
    ensures
        forall|i: int, j: int|
            0 <= i < j < fused(file, video, image, query).len() ==> result_key(
                #[trigger] fused(file, video, image, query)[i].item,
            ) != result_key(#[trigger] fused(file, video, image, query)[j].item),
        forall|i: int, j: int|
            0 <= i < j < fused(file, video, image, query).len() ==> !higher(
                #[trigger] fused(file, video, image, query)[j],
                #[trigger] fused(file, video, image, query)[i],
            ),
        forall|i: int, j: int|
            0 <= i < j < fused(file, video, image, query).len() && same_score(
                #[trigger] fused(file, video, image, query)[i],
                #[trigger] fused(file, video, image, query)[j],
            ) && fused(file, video, image, query)[j].item.label == Source::Video
                ==> fused(file, video, image, query)[i].item.label == Source::Video,
{
    let kws = query_keywords(query);
    let all = scored(file_hits(objects_in(file)), kws) + scored(video_hits(objects_in(video)), kws)
        + scored(image_hits(objects_in(image)), kws);
    lemma_rank_all_ranked(all);
    lemma_dedup_first(rank_all(all));
}

/// The label of a hit, as the answer writes it.
pub open spec fn label_text(l: Source) -> Seq<char> {
    match l {
        Source::File => "file"@,
        Source::Video => "video"@,
        Source::Image => "image"@,
    }
}

/// Whether `j` is the string `t`.
pub open spec fn is_text(j: JsonValue, t: Seq<char>) -> bool {
    match j {
        JsonValue::Str(s) => s@ == t,
        _ => false,
    }
}

/// Whether `j` is the string `t`, or null where there is none.
pub open spec fn is_opt_text(j: JsonValue, t: Option<Seq<char>>) -> bool {
    match t {
        Some(x) => is_text(j, x),
        None => j == JsonValue::Null,
    }
}

/// The address of a video hit's thumbnail.
pub open spec fn thumbnail_url(origin: Seq<char>, hash: Seq<char>) -> Seq<char> {
    origin + "/api/thumbnails/"@ + hash
}

/// The thumbnail address that a hit carries: only a video hit with a content
/// hash whose thumbnail was found.
pub open spec fn thumbnail_for(v: ItemView, found: bool, origin: Seq<char>) -> Option<Seq<char>> {
    if v.label == Source::Video && v.content_hash is Some && found {
        Some(thumbnail_url(origin, v.content_hash->0))
    } else {
        None
    }
}

/// Whether `j` is the answer's entry for hit `v`: its label, content and
/// path, and the thumbnail address where there is one.
pub open spec fn is_result_entry(j: JsonValue, v: ItemView, url: Option<Seq<char>>) -> bool {
    match j {
        JsonValue::Object(f) => {
            &&& f@.len() == (if url is Some { 4int } else { 3int })
            &&& f@[0].0@ == "label"@ && is_text(f@[0].1, label_text(v.label))
            &&& f@[1].0@ == "content"@ && is_opt_text(f@[1].1, v.content)
            &&& f@[2].0@ == "path"@ && is_text(f@[2].1, v.path)
            &&& url is Some ==> f@[3].0@ == "thumbnail_url"@ && is_text(f@[3].1, url->0)
        },
        _ => false,
    }
}

/// Whether `j` is the answer to `query` that lists `items`, with the
/// thumbnails that `found` marks.
pub open spec fn is_search_answer(
    j: JsonValue,
    query: Seq<char>,
    items: Seq<ScoredView>,
    found: Seq<bool>,
    origin: Seq<char>,
) -> bool {
    match j {
        JsonValue::Object(f) => {
            &&& f@.len() == 2
            &&& f@[0].0@ == "query"@ && is_text(f@[0].1, query)
            &&& f@[1].0@ == "results"@
            &&& match f@[1].1 {
                JsonValue::Array(rs) => {
                    &&& rs@.len() == items.len()
                    &&& found.len() == items.len()
                    &&& forall|i: int|
                        0 <= i < items.len() ==> is_result_entry(
                            #[trigger] rs@[i],
                            items[i].item,
                            thumbnail_for(items[i].item, found[i], origin),
                        )
                },
                _ => false,
            }
        },
        _ => false,
    }
}

/// Relies on std::path::Path::exists: the answer depends on what is on disk,
/// and nothing is promised of it.
#[verifier::external_body]
fn path_exists(path: &str) -> (r: bool) {
    std::path::Path::new(path).exists()
}

/// The path of the entry `name` of the directory `dir`: joined with a `/`
/// unless `dir` is empty or already ends with a separator.
pub open spec fn joined_path(dir: Seq<char>, name: Seq<char>) -> Seq<char> {
    if dir.len() == 0 {
        name
    } else if dir.last() == '/' || dir.last() == '\\' {
        dir + name
    } else {
        dir + seq!['/'] + name
    }
}

fn join_path(dir: &str, name: &str) -> (r: String)
    ensures
        r@ == joined_path(dir@, name@),
{
    let n = dir.unicode_len();
    let mut path = String::from_str(dir);
    if n > 0 {
        let last = dir.get_char(n - 1);
        if last != '/' && last != '\\' {
            proof {
                reveal_strlit("/");
            }
            path.append("/");
        }
    }
    path.append(name);
    path
}

/// Whether the thumbnail of the video whose content hash is `content_hash`
/// stands at `thumbnail_path(thumbnails_dir, content_hash)`. Never for an
/// empty hash.
pub fn has_thumbnail(thumbnails_dir: &str, content_hash: &str) -> (r: bool)
    ensures
        content_hash@.len() == 0 ==> !r,
{
    if content_hash.unicode_len() == 0 {
        return false;
    }
    let path = thumbnail_path(thumbnails_dir, content_hash);
    path_exists(path.as_str())
}

/// Where the thumbnail of the video whose content hash is `content_hash`
/// stands: `<content_hash>.jpg` in `thumbnails_dir`. This is the path whose
/// existence `has_thumbnail` asks about.
pub fn thumbnail_path(thumbnails_dir: &str, content_hash: &str) -> (r: String)
    ensures
        r@ == joined_path(thumbnails_dir@, content_hash@ + ".jpg"@),
{
    let mut name = String::from_str(content_hash);
    name.append(".jpg");
    join_path(thumbnails_dir, name.as_str())
}

fn text_value(s: &str) -> (r: JsonValue)
    ensures
        is_text(r, s@),
{
    JsonValue::Str(String::from_str(s))
}

fn result_entry(item: &SearchItem, found: bool, origin: &str) -> (r: JsonValue)
    ensures
        is_result_entry(r, item@, thumbnail_for(item@, found, origin@)),
{
    let label = match item.label {
        Source::File => "file",
        Source::Video => "video",
        Source::Image => "image",
    };
    let content = match &item.content {
        Some(c) => text_value(c.as_str()),
        None => JsonValue::Null,
    };
    let mut fields: Vec<(String, JsonValue)> = Vec::new();
    fields.push((String::from_str("label"), text_value(label)));
    fields.push((String::from_str("content"), content));
    fields.push((String::from_str("path"), text_value(item.path.as_str())));
    if found && item.label == Source::Video {
        if let Some(hash) = &item.content_hash {
            let mut url = String::from_str(origin);
            url.append("/api/thumbnails/");
            url.append(hash.as_str());
            fields.push((String::from_str("thumbnail_url"), JsonValue::Str(url)));
        }
    }
    JsonValue::Object(fields)
}

/// The answer to `query` that lists `items`, a video hit with its thumbnail
/// address where `found` marks it.
pub fn search_answer(query: &str, items: &Vec<ScoredItem>, found: &Vec<bool>, origin: &str) -> (r: JsonValue)
    requires
        found@.len() == items@.len(),
    ensures
        is_search_answer(r, query@, scored_views(items@), found@, origin@),
{
    let mut results: Vec<JsonValue> = Vec::new();
    let mut i: usize = 0;
    while i < items.len()
        invariant
            i <= items@.len(),
            found@.len() == items@.len(),
            results@.len() == i,
            forall|k: int|
                0 <= k < i ==> is_result_entry(
                    #[trigger] results@[k],
                    scored_views(items@)[k].item,
                    thumbnail_for(scored_views(items@)[k].item, found@[k], origin@),
                ),
        decreases items@.len() - i,
    {
        results.push(result_entry(&items[i].item, found[i], origin));
        i = i + 1;
    }
    let mut fields: Vec<(String, JsonValue)> = Vec::new();
    fields.push((String::from_str("query"), text_value(query)));
    fields.push((String::from_str("results"), JsonValue::Array(results)));
    JsonValue::Object(fields)
}

/// Answers `query` from the three backends' answers: the fused list, each
/// video hit with the address of its thumbnail where one stands in
/// `thumbnails_dir`.
pub fn search_results(
    query: &str,
    file_response: &JsonValue,
    video_response: &JsonValue,
    image_response: &JsonValue,
    thumbnails_dir: &str,
    origin: &str,
) -> (r: JsonValue)
    ensures
        exists|found: Seq<bool>|
            {
                &&& is_search_answer(r, query@, fused(*file_response, *video_response, *image_response, query@), found, origin@)
                &&& forall|i: int|
                    0 <= i < found.len() && #[trigger] found[i] ==> or_empty(
                        fused(*file_response, *video_response, *image_response, query@)[i].item.content_hash,
                    ).len() > 0
            },
{
    let items = fuse_results(query, file_response, video_response, image_response);
    let mut found: Vec<bool> = Vec::new();
    let mut i: usize = 0;
    while i < items.len()
        invariant
            i <= items@.len(),
            found@.len() == i,
            forall|k: int| 0 <= k < i && #[trigger] found@[k] ==> or_empty(scored_views(items@)[k].item.content_hash).len() > 0,
        decreases items@.len() - i,
    {
        let shown = match (&items[i].item.label, &items[i].item.content_hash) {
            (Source::Video, Some(hash)) => has_thumbnail(thumbnails_dir, hash.as_str()),
            _ => false,
        };
        found.push(shown);
        i = i + 1;
    }
    let r = search_answer(query, &items, &found, origin);
    assert(is_search_answer(r, query@, fused(*file_response, *video_response, *image_response, query@), found@, origin@));
    r
}

} // verus!
