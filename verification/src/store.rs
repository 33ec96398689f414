//! The query and upsert engines over the base record store.
//!
//! The store is modelled as the sequence of its records, keyed uniquely by
//! `art_id`. Reads resolve a category and a character filter and select
//! against the membership predicate of the pre-filtered views; writes
//! replace-or-insert whole records, never parts of them.

use vstd::prelude::*;

use crate::artwork::{
    category_of_label, record_in_category, ArtworkInfo, ArtworkInfoView, Category,
};
use crate::filter::{
    compile_character_filter, filter_matches, spec_compile, CharacterFilter,
};
use crate::text::str_bytes;

verus! {

/// The common, ephemeral query descriptor: optional character-name
/// fragments and an optional content-rating label. An absent label defaults
/// to SFW; absent characters mean no filter.
pub struct ArtworkQueryOption {
    pub characters: Option<Vec<String>>,
    pub image_type: Option<String>,
}

impl ArtworkQueryOption {
    /// A query descriptor from its two parts. `None` characters compile to
    /// the permissive filter; a `None` label resolves to SFW.
    pub fn new(characters: Option<Vec<String>>, image_type: Option<String>) -> (r: Self)
        ensures
            r.characters == characters,
            r.image_type == image_type,
    {
        ArtworkQueryOption { characters, image_type }
    }
}

/// The category a query descriptor resolves to: its label parsed
/// case-insensitively, SFW when absent.
pub open spec fn spec_option_category(o: ArtworkQueryOption) -> Category {
    match o.image_type {
        Some(s) => category_of_label(str_bytes(s@)),
        None => Category::Sfw,
    }
}

/// The compiled filter conditions of a query descriptor: empty when absent.
pub open spec fn spec_option_conds(o: ArtworkQueryOption) -> Seq<Seq<u8>> {
    match o.characters {
        Some(v) => spec_compile(v@.map_values(|s: String| str_bytes(s@))),
        None => Seq::empty(),
    }
}

/// A record is selected by a query when it belongs to the resolved
/// category's view and satisfies the character filter.
pub open spec fn spec_query_matches(r: ArtworkInfoView, cat: Category, conds: Seq<Seq<u8>>) -> bool {
    record_in_category(r, cat) && filter_matches(conds, r.characters)
}

/// The name of the pre-filtered view of a category.
pub open spec fn view_name(c: Category) -> Seq<char> {
    match c {
        Category::Sfw => "artworks_sfw"@,
        Category::Nsfw => "artworks_nsfw"@,
        Category::R18 => "artworks_r18"@,
    }
}

/// The collection name a content-rating label selects: the label is matched
/// case-insensitively and anything unrecognized falls open to the SFW view.
pub fn collection_name_by_artwork_type(artwork_type: &str) -> (r: &str)
    ensures
        r@ == view_name(category_of_label(str_bytes(artwork_type@))),
{
    match crate::artwork::resolve_category(artwork_type) {
        Category::Sfw => "artworks_sfw",
        Category::Nsfw => "artworks_nsfw",
        Category::R18 => "artworks_r18",
    }
}

/// Where `id` first occurs in `s`, or `-1` when it does not.
pub open spec fn spec_find_at(s: Seq<ArtworkInfoView>, id: i64) -> int
    decreases s.len(),
{
    if s.len() == 0 {
        -1
    } else if s[0].art_id == id {
        0
    } else {
        let rest = spec_find_at(s.drop_first(), id);
        if rest < 0 {
            -1
        } else {
            rest + 1
        }
    }
}

/// The record of `s` with identifier `id`, if any.
pub open spec fn spec_find(s: Seq<ArtworkInfoView>, id: i64) -> Option<ArtworkInfoView> {
    if spec_find_at(s, id) >= 0 {
        Some(s[spec_find_at(s, id)])
    } else {
        None
    }
}

/// `spec_find_at` is the first matching index: in range and matching when
/// some index matches, `-1` otherwise.
pub proof fn lemma_spec_find_at(s: Seq<ArtworkInfoView>, id: i64)
    ensures
        spec_find_at(s, id) >= 0 ==> 0 <= spec_find_at(s, id) < s.len() && s[spec_find_at(
            s,
            id,
        )].art_id == id && forall|j: int| 0 <= j < spec_find_at(s, id) ==> s[j].art_id != id,
        spec_find_at(s, id) < 0 ==> forall|j: int| 0 <= j < s.len() ==> s[j].art_id != id,
    decreases s.len(),
{
    if s.len() == 0 {
    } else if s[0].art_id == id {
        assert(spec_find_at(s, id) == 0);
    } else {
        let rest = spec_find_at(s.drop_first(), id);
        lemma_spec_find_at(s.drop_first(), id);
        assert(forall|j: int|
            0 <= j < s.drop_first().len() ==> #[trigger] s.drop_first()[j] == s[j + 1]);
        if rest >= 0 {
            assert(spec_find_at(s, id) == rest + 1);
            assert(s.drop_first()[rest].art_id == id);
            assert forall|j: int| 0 <= j < rest + 1 implies s[j].art_id != id by {
                if j > 0 {
                    assert(s.drop_first()[j - 1].art_id != id);
                }
            }
        } else {
            assert(spec_find_at(s, id) == -1);
            assert forall|j: int| 0 <= j < s.len() implies s[j].art_id != id by {
                if j > 0 {
                    assert(s.drop_first()[j - 1].art_id != id);
                }
            }
        }
    }
}

/// Replace the record sharing `r.art_id`, or append `r` when none does.
pub open spec fn spec_upsert(s: Seq<ArtworkInfoView>, r: ArtworkInfoView) -> Seq<ArtworkInfoView> {
    if spec_find_at(s, r.art_id) >= 0 {
        s.update(spec_find_at(s, r.art_id), r)
    } else {
        s.push(r)
    }
}

/// Upsert a batch, first record first.
pub open spec fn spec_upsert_many(
    s: Seq<ArtworkInfoView>,
    rs: Seq<ArtworkInfoView>,
) -> Seq<ArtworkInfoView>
    decreases rs.len(),
{
    if rs.len() == 0 {
        s
    } else {
        spec_upsert_many(spec_upsert(s, rs[0]), rs.drop_first())
    }
}

/// The records matching `ids`, in the order of `ids`, duplicates preserved
/// and unknown identifiers dropped.
pub open spec fn spec_get_by_ids(s: Seq<ArtworkInfoView>, ids: Seq<i64>) -> Seq<ArtworkInfoView>
    decreases ids.len(),
{
    if ids.len() == 0 {
        Seq::empty()
    } else {
        let rest = spec_get_by_ids(s, ids.drop_first());
        match spec_find(s, ids[0]) {
            Some(r) => seq![r] + rest,
            None => rest,
        }
    }
}

/// Extending the identifier list extends the selection at its end.
proof fn lemma_get_by_ids_push(s: Seq<ArtworkInfoView>, ids: Seq<i64>, id: i64)
    ensures
        spec_get_by_ids(s, ids.push(id)) == spec_get_by_ids(s, ids) + (match spec_find(s, id) {
            Some(r) => seq![r],
            None => Seq::<ArtworkInfoView>::empty(),
        }),
    decreases ids.len(),
{
    let tail = match spec_find(s, id) {
        Some(r) => seq![r],
        None => Seq::<ArtworkInfoView>::empty(),
    };
    if ids.len() == 0 {
        assert(ids.push(id)[0] == id);
        assert(ids.push(id).drop_first() =~= Seq::<i64>::empty());
        assert(spec_get_by_ids(s, Seq::<i64>::empty()) =~= Seq::<ArtworkInfoView>::empty());
        assert(spec_get_by_ids(s, ids.push(id)) =~= tail);
        assert(spec_get_by_ids(s, ids) + tail =~= tail);
    } else {
        assert(ids.push(id).drop_first() =~= ids.drop_first().push(id));
        lemma_get_by_ids_push(s, ids.drop_first(), id);
        assert(ids.push(id)[0] == ids[0]);
        match spec_find(s, ids[0]) {
            Some(r) => {
                assert(spec_get_by_ids(s, ids.push(id)) =~= seq![r] + (spec_get_by_ids(
                    s,
                    ids.drop_first(),
                ) + tail));
                assert(seq![r] + (spec_get_by_ids(s, ids.drop_first()) + tail) =~= (seq![r]
                    + spec_get_by_ids(s, ids.drop_first())) + tail);
            },
            None => {},
        }
    }
}

/// The ordered selection over a fetched batch: the records of `records`
/// matching `ids`, in the order of `ids`, duplicates preserved and unknown
/// identifiers dropped. This is the positional-correspondence step of a
/// batch metadata lookup, applied to records fetched from elsewhere in
/// whatever order they arrived.
pub fn select_by_ids(records: Vec<ArtworkInfo>, ids: &Vec<i64>) -> (r: Vec<ArtworkInfo>)
    ensures
        r@.map_values(|a: ArtworkInfo| a@) == spec_get_by_ids(
            records@.map_values(|x: ArtworkInfo| x@),
            ids@,
        ),
        ids@.len() == 0 ==> r@.len() == 0,
{
    let store = ArtStore { records };
    let r = store.get_by_ids(ids);
    proof {
        assert(store@ == store.records@.map_values(|x: ArtworkInfo| x@));
    }
    r
}

/// How many records of `s` belong to the view of category `c`.
pub open spec fn spec_count_category(s: Seq<ArtworkInfoView>, c: Category) -> nat
    decreases s.len(),
{
    if s.len() == 0 {
        0
    } else {
        spec_count_category(s.drop_last(), c) + if record_in_category(s.last(), c) {
            1nat
        } else {
            0nat
        }
    }
}

/// No two records of `s` share an identifier.
pub open spec fn ids_unique(s: Seq<ArtworkInfoView>) -> bool {
    forall|i: int, j: int|
        0 <= i < j < s.len() ==> #[trigger] s[i].art_id != #[trigger] s[j].art_id
}

/// `spec_find_at` returns `i` exactly when `i` holds the identifier and no
/// earlier index does.
pub proof fn lemma_find_at_first(s: Seq<ArtworkInfoView>, id: i64, i: int)
    requires
        0 <= i < s.len(),
        s[i].art_id == id,
        forall|j: int| 0 <= j < i ==> s[j].art_id != id,
    ensures
        spec_find_at(s, id) == i,
    decreases i,
{
    if i == 0 {
    } else {
        assert(s[0].art_id != id);
        assert(forall|j: int|
            0 <= j < s.drop_first().len() ==> #[trigger] s.drop_first()[j] == s[j + 1]);
        lemma_find_at_first(s.drop_first(), id, i - 1);
    }
}

/// Upserting `r2` right after `r1` with the same identifier is the same as
/// upserting `r2` alone: the second write fully replaces the first, so one
/// record remains for that identifier and it carries `r2`'s fields.
pub proof fn lemma_upsert_twice_last_writer_wins(
    s: Seq<ArtworkInfoView>,
    r1: ArtworkInfoView,
    r2: ArtworkInfoView,
)
    requires
        r1.art_id == r2.art_id,
    ensures
        spec_upsert(spec_upsert(s, r1), r2) == spec_upsert(s, r2),
{
    let id = r1.art_id;
    lemma_spec_find_at(s, id);
    let f = spec_find_at(s, id);
    if f >= 0 {
        let s1 = s.update(f, r1);
        lemma_find_at_first(s1, id, f);
        assert(spec_upsert(s, r1) == s1);
        assert(spec_upsert(s1, r2) == s1.update(f, r2));
        assert(s1.update(f, r2) =~= s.update(f, r2));
    } else {
        let s1 = s.push(r1);
        assert(s1[s.len() as int].art_id == id);
        lemma_find_at_first(s1, id, s.len() as int);
        assert(spec_upsert(s, r1) == s1);
        assert(spec_upsert(s1, r2) == s1.update(s.len() as int, r2));
        assert(s1.update(s.len() as int, r2) =~= s.push(r2));
    }
}

/// After an upsert the store holds the upserted record under its
/// identifier, exactly once, and identifiers stay unique.
pub proof fn lemma_upsert_find(s: Seq<ArtworkInfoView>, r: ArtworkInfoView)
    requires
        ids_unique(s),
    ensures
        spec_find(spec_upsert(s, r), r.art_id) == Some(r),
        ids_unique(spec_upsert(s, r)),
        forall|j: int|
            0 <= j < spec_upsert(s, r).len() && #[trigger] spec_upsert(s, r)[j].art_id == r.art_id
                ==> spec_upsert(s, r)[j] == r,
{
    let id = r.art_id;
    lemma_spec_find_at(s, id);
    let f = spec_find_at(s, id);
    let s1 = spec_upsert(s, r);
    if f >= 0 {
        lemma_find_at_first(s1, id, f);
    } else {
        assert(s1[s.len() as int].art_id == id);
        lemma_find_at_first(s1, id, s.len() as int);
    }
}

/// An identifier paired with the upload timestamp of its record, the unit
/// the identifier listing is ordered by.
#[derive(Clone, Copy, PartialEq, Eq, Structural)]
pub struct IdTs {
    pub upload_timestamp: i64,
    pub art_id: i64,
}

/// Non-increasing by upload timestamp.
pub open spec fn sorted_desc(s: Seq<IdTs>) -> bool {
    forall|i: int, j: int|
        0 <= i < j < s.len() ==> #[trigger] s[i].upload_timestamp
            >= #[trigger] s[j].upload_timestamp
}

/// The identifier/timestamp pairs of the records a query selects, in store
/// order.
pub open spec fn spec_matching_pairs(
    s: Seq<ArtworkInfoView>,
    cat: Category,
    conds: Seq<Seq<u8>>,
) -> Seq<IdTs>
    decreases s.len(),
{
    if s.len() == 0 {
        Seq::empty()
    } else {
        spec_matching_pairs(s.drop_last(), cat, conds) + if spec_query_matches(
            s.last(),
            cat,
            conds,
        ) {
            seq![
                IdTs {
                    upload_timestamp: s.last().upload_timestamp,
                    art_id: s.last().art_id,
                },
            ]
        } else {
            Seq::empty()
        }
    }
}

/// Writing a record back unchanged changes nothing: a record read from the
/// store and upserted as it stands leaves the store as it was.
pub proof fn lemma_rewrite_unchanged(s: Seq<ArtworkInfoView>, r: ArtworkInfoView)
    requires
        spec_find(s, r.art_id) == Some(r),
    ensures
        spec_upsert(s, r) == s,
{
    lemma_spec_find_at(s, r.art_id);
    assert(spec_upsert(s, r) =~= s);
}

/// The upload timestamp of the record an identifier names, `0` when the
/// identifier names no record.
pub open spec fn spec_ts_of(s: Seq<ArtworkInfoView>, id: i64) -> i64 {
    match spec_find(s, id) {
        Some(r) => r.upload_timestamp,
        None => 0,
    }
}

/// Every pair of the matching projection names a record of the store and
/// carries that record's upload timestamp.
proof fn lemma_matching_pair_source(
    s: Seq<ArtworkInfoView>,
    cat: Category,
    conds: Seq<Seq<u8>>,
    p: IdTs,
)
    requires
        ids_unique(s),
        spec_matching_pairs(s, cat, conds).contains(p),
    ensures
        spec_find_at(s, p.art_id) >= 0,
        spec_ts_of(s, p.art_id) == p.upload_timestamp,
    decreases s.len(),
{
    let pairs = spec_matching_pairs(s, cat, conds);
    let prefix = s.drop_last();
    let ppre = spec_matching_pairs(prefix, cat, conds);
    let k = choose|k: int| 0 <= k < pairs.len() && pairs[k] == p;
    if k < ppre.len() {
        assert(ppre[k] == p);
        assert(ppre.contains(p));
        assert(forall|i: int| 0 <= i < prefix.len() ==> #[trigger] prefix[i] == s[i]);
        lemma_matching_pair_source(prefix, cat, conds, p);
        let f = spec_find_at(prefix, p.art_id);
        lemma_spec_find_at(prefix, p.art_id);
        lemma_find_at_first(s, p.art_id, f);
    } else {
        assert(spec_query_matches(s.last(), cat, conds));
        assert(p == IdTs {
            upload_timestamp: s.last().upload_timestamp,
            art_id: s.last().art_id,
        });
        assert(s.last() == s[s.len() - 1]);
        assert(forall|j: int| 0 <= j < s.len() - 1 ==> s[j].art_id != p.art_id);
        lemma_find_at_first(s, p.art_id, s.len() - 1);
    }
}

/// The identifier listing is non-increasing in the upload timestamps of
/// the records the identifiers name: for any identifier sequence produced
/// by sorting the matching pairs newest first, an earlier identifier's
/// record was uploaded no earlier than a later identifier's.
pub proof fn lemma_listing_nonincreasing(
    store: Seq<ArtworkInfoView>,
    cat: Category,
    conds: Seq<Seq<u8>>,
    s: Seq<IdTs>,
    r: Seq<i64>,
)
    requires
        ids_unique(store),
        sorted_desc(s),
        s.to_multiset() == spec_matching_pairs(store, cat, conds).to_multiset(),
        r == s.map_values(|p: IdTs| p.art_id),
    ensures
        forall|i: int, j: int|
            0 <= i < j < r.len() ==> spec_ts_of(store, #[trigger] r[i]) >= spec_ts_of(
                store,
                #[trigger] r[j],
            ),
{
    let pairs = spec_matching_pairs(store, cat, conds);
    assert forall|i: int, j: int|
        0 <= i < j < r.len() implies spec_ts_of(store, #[trigger] r[i]) >= spec_ts_of(
        store,
        #[trigger] r[j],
    ) by {
        s.to_multiset_ensures();
        pairs.to_multiset_ensures();
        assert(s.contains(s[i]));
        assert(s.to_multiset().count(s[i]) > 0);
        assert(pairs.contains(s[i]));
        assert(s.contains(s[j]));
        assert(s.to_multiset().count(s[j]) > 0);
        assert(pairs.contains(s[j]));
        lemma_matching_pair_source(store, cat, conds, s[i]);
        lemma_matching_pair_source(store, cat, conds, s[j]);
        assert(r[i] == s[i].art_id);
        assert(r[j] == s[j].art_id);
        assert(s[i].upload_timestamp >= s[j].upload_timestamp);
    }
}

/// Sort pairs by upload timestamp, newest first; elements are preserved as
/// a multiset. Pairs of equal timestamp carry no promised relative order.
fn sort_pairs_desc(v: Vec<IdTs>) -> (r: Vec<IdTs>)
    ensures
        sorted_desc(r@),
        r@.to_multiset() == v@.to_multiset(),
{
    broadcast use vstd::seq_lib::group_to_multiset_ensures;

    let mut out: Vec<IdTs> = Vec::new();
    proof {
        assert(v@.take(0) =~= Seq::<IdTs>::empty());
        assert(out@.to_multiset() =~= v@.take(0).to_multiset());
    }
    let mut i: usize = 0;
    while i < v.len()
        invariant
            0 <= i <= v@.len(),
            sorted_desc(out@),
            out@.to_multiset() == v@.take(i as int).to_multiset(),
        decreases v@.len() - i,
    {
        let x = v[i];
        let mut pos: usize = 0;
        while pos < out.len() && out[pos].upload_timestamp >= x.upload_timestamp
            invariant
                0 <= pos <= out@.len(),
                forall|j: int|
                    0 <= j < pos ==> #[trigger] out@[j].upload_timestamp >= x.upload_timestamp,
            decreases out@.len() - pos,
        {
            pos += 1;
        }
        let ghost old_out = out@;
        proof {
            old_out.insert_ensures(pos as int, x);
        }
        out.insert(pos, x);
        proof {
            assert(sorted_desc(out@)) by {
                assert forall|a: int, b: int|
                    0 <= a < b < out@.len() implies #[trigger] out@[a].upload_timestamp
                    >= #[trigger] out@[b].upload_timestamp by {
                    if b < pos {
                    } else if a == pos && b > pos {
                        assert(out@[b] == old_out[b - 1]);
                        if pos < old_out.len() {
                            assert(old_out[pos as int].upload_timestamp < x.upload_timestamp);
                        }
                    } else if a < pos && b == pos {
                    } else if a > pos {
                        assert(out@[a] == old_out[a - 1]);
                        assert(out@[b] == old_out[b - 1]);
                    } else if a < pos && b > pos {
                        assert(out@[a] == old_out[a]);
                        assert(out@[b] == old_out[b - 1]);
                        if pos < old_out.len() {
                            assert(old_out[pos as int].upload_timestamp < x.upload_timestamp);
                        }
                    }
                }
            }
            assert(v@.take(i + 1) =~= v@.take(i as int).push(x));
            vstd::seq_lib::to_multiset_build(v@.take(i as int), x);
            vstd::seq_lib::to_multiset_insert(old_out, pos as int, x);
            assert(out@.to_multiset() == old_out.insert(pos as int, x).to_multiset());
            assert(out@.to_multiset() == v@.take(i + 1).to_multiset());
        }
        i += 1;
    }
    proof {
        assert(v@.take(v@.len() as int) =~= v@);
    }
    out
}

/// The base store of artwork records, keyed uniquely by `art_id`.
pub struct ArtStore {
    records: Vec<ArtworkInfo>,
}

impl View for ArtStore {
    type V = Seq<ArtworkInfoView>;

    closed spec fn view(&self) -> Seq<ArtworkInfoView> {
        self.records@.map_values(|r: ArtworkInfo| r@)
    }
}

impl ArtStore {
    /// Well-formed: no two records share an identifier.
    pub open spec fn wf(&self) -> bool {
        ids_unique(self@)
    }

    /// An empty store.
    pub fn new() -> (r: Self)
        ensures
            r@ =~= Seq::<ArtworkInfoView>::empty(),
            r.wf(),
    {
        let r = ArtStore { records: Vec::new() };
        proof {
            assert(r@ =~= Seq::<ArtworkInfoView>::empty());
        }
        r
    }

    /// How many records the store holds.
    pub fn count_total(&self) -> (n: u64)
        ensures
            n == self@.len(),
    {
        self.records.len() as u64
    }

    /// The index of the record with identifier `id`, if any.
    fn find_index(&self, id: i64) -> (r: Option<usize>)
        ensures
            match r {
                Some(i) => i == spec_find_at(self@, id),
                None => spec_find_at(self@, id) < 0,
            },
    {
        proof {
            lemma_spec_find_at(self@, id);
        }
        let mut i: usize = 0;
        while i < self.records.len()
            invariant
                0 <= i <= self@.len(),
                forall|j: int| 0 <= j < i ==> self@[j].art_id != id,
                spec_find_at(self@, id) >= 0 ==> 0 <= spec_find_at(self@, id) < self@.len()
                    && self@[spec_find_at(self@, id)].art_id == id,
                spec_find_at(self@, id) < 0 ==> forall|j: int|
                    0 <= j < self@.len() ==> self@[j].art_id != id,
                spec_find_at(self@, id) >= 0 ==> forall|j: int|
                    0 <= j < spec_find_at(self@, id) ==> self@[j].art_id != id,
            decreases self@.len() - i,
        {
            if self.records[i].art_id == id {
                proof {
                    assert(self@[i as int] == self.records@[i as int]@);
                    assert(self@[i as int].art_id == id);
                    let f = spec_find_at(self@, id);
                    assert(f >= 0);
                    if f < i {
                        assert(self@[f].art_id != id);
                        assert(false);
                    }
                    if f > i {
                        assert(self@[i as int].art_id != id);
                        assert(false);
                    }
                }
                return Some(i);
            }
            i += 1;
        }
        None
    }

    /// The record with identifier `id`, if present, as a fresh copy.
    pub fn find_record(&self, id: i64) -> (r: Option<ArtworkInfo>)
        ensures
            match r {
                Some(a) => spec_find(self@, id) == Some(a@),
                None => spec_find(self@, id) is None,
            },
    {
        proof {
            lemma_spec_find_at(self@, id);
        }
        match self.find_index(id) {
            Some(i) => {
                let a = self.records[i].clone();
                proof {
                    assert(a@ == self.records@[i as int]@);
                    assert(self@[i as int] == self.records@[i as int]@);
                }
                Some(a)
            },
            None => None,
        }
    }

    /// Replace the record sharing `rec.art_id` with `rec`, or insert `rec`
    /// when no record has that identifier. Whole-record replacement: no
    /// field-wise merging.
    pub fn upsert_one(&mut self, rec: ArtworkInfo)
        requires
            old(self).wf(),
        ensures
            final(self)@ == spec_upsert(old(self)@, rec@),
            final(self).wf(),
    {
        proof {
            lemma_spec_find_at(self@, rec@.art_id);
        }
        match self.find_index(rec.art_id) {
            Some(i) => {
                let ghost idx = i as int;
                self.records.set(i, rec);
                proof {
                    assert(self@ =~= old(self)@.update(idx, rec@));
                }
            },
            None => {
                self.records.push(rec);
                proof {
                    assert(self@ =~= old(self)@.push(rec@));
                }
            },
        }
    }

    /// Upsert a batch of records, each independently, first record first.
    /// Success is not conditional: on this store every single upsert
    /// succeeds.
    pub fn upsert_many(&mut self, recs: Vec<ArtworkInfo>)
        requires
            old(self).wf(),
        ensures
            final(self)@ == spec_upsert_many(old(self)@, recs@.map_values(|r: ArtworkInfo| r@)),
            final(self).wf(),
    {
        let ghost rviews = recs@.map_values(|r: ArtworkInfo| r@);
        let ghost n = recs@.len();
        proof {
            assert(rviews.skip(0) =~= rviews);
        }
        let mut idx: usize = 0;
        let len = recs.len();
        while idx < len
            invariant
                len == recs@.len(),
                rviews == recs@.map_values(|r: ArtworkInfo| r@),
                0 <= idx <= len,
                self.wf(),
                spec_upsert_many(old(self)@, rviews) == spec_upsert_many(
                    self@,
                    rviews.skip(idx as int),
                ),
            decreases len - idx,
        {
            let ghost before = self@;
            let rec = recs[idx].clone();
            proof {
                assert(rec@ == rviews[idx as int]);
            }
            self.upsert_one(rec);
            proof {
                assert(rviews.skip(idx as int).drop_first() =~= rviews.skip(idx + 1));
                assert(rviews.skip(idx as int)[0] == rviews[idx as int]);
                assert(spec_upsert_many(before, rviews.skip(idx as int)) == spec_upsert_many(
                    spec_upsert(before, rviews[idx as int]),
                    rviews.skip(idx + 1),
                ));
            }
            idx += 1;
        }
        proof {
            assert(rviews.skip(n as int) =~= Seq::<ArtworkInfoView>::empty());
        }
    }

    /// The records matching `ids`, in the order of `ids`, duplicates
    /// preserved, unknown identifiers silently dropped. An empty `ids`
    /// yields an empty result at once, without touching the records.
    pub fn get_by_ids(&self, ids: &Vec<i64>) -> (r: Vec<ArtworkInfo>)
        ensures
            r@.map_values(|a: ArtworkInfo| a@) == spec_get_by_ids(self@, ids@),
            ids@.len() == 0 ==> r@.len() == 0,
    {
        let mut r: Vec<ArtworkInfo> = Vec::new();
        if ids.len() == 0 {
            proof {
                assert(r@.map_values(|a: ArtworkInfo| a@) =~= spec_get_by_ids(self@, ids@));
            }
            return r;
        }
        let mut i: usize = 0;
        while i < ids.len()
            invariant
                0 <= i <= ids@.len(),
                r@.map_values(|a: ArtworkInfo| a@) =~= spec_get_by_ids(self@, ids@.take(i as int)),
            decreases ids.len() - i,
        {
            let ghost prefix = ids@.take(i as int);
            match self.find_record(ids[i]) {
                Some(a) => {
                    r.push(a);
                },
                None => {},
            }
            proof {
                lemma_get_by_ids_push(self@, prefix, ids@[i as int]);
                assert(ids@.take(i + 1) =~= prefix.push(ids@[i as int]));
                assert(r@.map_values(|a: ArtworkInfo| a@) =~= spec_get_by_ids(
                    self@,
                    ids@.take(i + 1),
                ));
            }
            i += 1;
        }
        proof {
            assert(ids@.take(ids@.len() as int) =~= ids@);
        }
        r
    }

    /// The greatest `upload_timestamp` over the store, `0` when the store
    /// is empty.
    pub fn latest_upload_timestamp(&self) -> (t: i64)
        ensures
            self@.len() == 0 ==> t == 0,
            self@.len() > 0 ==> (exists|i: int|
                0 <= i < self@.len() && #[trigger] self@[i].upload_timestamp == t) && (forall|
                i: int,
            |
                0 <= i < self@.len() ==> #[trigger] self@[i].upload_timestamp <= t),
    {
        if self.records.len() == 0 {
            return 0;
        }
        let mut t: i64 = self.records[0].upload_timestamp;
        proof {
            assert(self@[0] == self.records@[0]@);
            assert(self@[0].upload_timestamp == t);
        }
        let mut i: usize = 1;
        while i < self.records.len()
            invariant
                1 <= i <= self@.len(),
                self@.len() > 0,
                exists|j: int| 0 <= j < i && #[trigger] self@[j].upload_timestamp == t,
                forall|j: int| 0 <= j < i ==> #[trigger] self@[j].upload_timestamp <= t,
            decreases self@.len() - i,
        {
            let ts = self.records[i].upload_timestamp;
            proof {
                assert(self@[i as int] == self.records@[i as int]@);
                assert(self@[i as int].upload_timestamp == ts);
            }
            if ts > t {
                t = ts;
            }
            i += 1;
        }
        t
    }

    /// List the identifiers of the records the query selects, newest
    /// upload first: the view of the resolved category is filtered by the
    /// compiled character conditions, sorted descending by
    /// `upload_timestamp` (ties in no promised order), and projected to the
    /// identifier. Nothing matching yields the empty listing, not an error.
    pub fn list_ids(&self, options: &ArtworkQueryOption) -> (r: Vec<i64>)
        ensures
            exists|s: Seq<IdTs>|
                #[trigger] sorted_desc(s) && s.to_multiset() == spec_matching_pairs(
                    self@,
                    spec_option_category(*options),
                    spec_option_conds(*options),
                ).to_multiset() && r@ == s.map_values(|p: IdTs| p.art_id),
            r@.len() == spec_matching_pairs(
                self@,
                spec_option_category(*options),
                spec_option_conds(*options),
            ).len(),
    {
        broadcast use vstd::seq_lib::group_to_multiset_ensures;

        let cat = match &options.image_type {
            Some(s) => crate::artwork::resolve_category(s.as_str()),
            None => Category::Sfw,
        };
        let f = match &options.characters {
            Some(v) => compile_character_filter(v),
            None => CharacterFilter { conds: Vec::new() },
        };
        let ghost conds = spec_option_conds(*options);
        proof {
            assert(cat == spec_option_category(*options));
            assert(f@ =~= conds);
        }
        let mut pairs: Vec<IdTs> = Vec::new();
        proof {
            assert(self@.take(0) =~= Seq::<ArtworkInfoView>::empty());
            assert(pairs@ =~= spec_matching_pairs(self@.take(0), cat, conds));
        }
        let mut i: usize = 0;
        while i < self.records.len()
            invariant
                0 <= i <= self@.len(),
                f@ == conds,
                pairs@ == spec_matching_pairs(self@.take(i as int), cat, conds),
            decreases self@.len() - i,
        {
            proof {
                assert(self@[i as int] == self.records@[i as int]@);
                assert(self@.take(i + 1).drop_last() =~= self@.take(i as int));
                assert(self@.take(i + 1).last() == self@[i as int]);
            }
            if self.records[i].in_category(cat) && f.matches(&self.records[i]) {
                pairs.push(
                    IdTs {
                        upload_timestamp: self.records[i].upload_timestamp,
                        art_id: self.records[i].art_id,
                    },
                );
                proof {
                    assert(pairs@ =~= spec_matching_pairs(self@.take(i + 1), cat, conds));
                }
            } else {
                proof {
                    assert(spec_matching_pairs(self@.take(i + 1), cat, conds)
                        =~= spec_matching_pairs(self@.take(i as int), cat, conds));
                }
            }
            i += 1;
        }
        proof {
            assert(self@.take(self@.len() as int) =~= self@);
        }
        let sorted = sort_pairs_desc(pairs);
        let mut r: Vec<i64> = Vec::new();
        let mut k: usize = 0;
        while k < sorted.len()
            invariant
                0 <= k <= sorted@.len(),
                r@ == sorted@.take(k as int).map_values(|p: IdTs| p.art_id),
            decreases sorted@.len() - k,
        {
            r.push(sorted[k].art_id);
            proof {
                assert(sorted@.take(k + 1).map_values(|p: IdTs| p.art_id) =~= sorted@.take(
                    k as int,
                ).map_values(|p: IdTs| p.art_id).push(sorted@[k as int].art_id));
                assert(r@ =~= sorted@.take(k + 1).map_values(|p: IdTs| p.art_id));
            }
            k += 1;
        }
        proof {
            assert(sorted@.take(sorted@.len() as int) =~= sorted@);
            let witness = sorted@;
            assert(sorted_desc(witness) && witness.to_multiset() == spec_matching_pairs(
                self@,
                spec_option_category(*options),
                spec_option_conds(*options),
            ).to_multiset() && r@ == witness.map_values(|p: IdTs| p.art_id));
            let ghost ms = spec_matching_pairs(self@, cat, conds);
            assert(witness.to_multiset().len() == witness.len());
            assert(ms.to_multiset().len() == ms.len());
        }
        r
    }

    /// How many records belong to the view of category `c`.
    pub fn count_by_category(&self, c: Category) -> (n: u64)
        ensures
            n == spec_count_category(self@, c),
    {
        let mut n: u64 = 0;
        let mut i: usize = 0;
        while i < self.records.len()
            invariant
                0 <= i <= self@.len(),
                n == spec_count_category(self@.take(i as int), c),
                n <= i,
            decreases self@.len() - i,
        {
            if self.records[i].in_category(c) {
                n += 1;
            }
            proof {
                assert(self@.take(i + 1).drop_last() =~= self@.take(i as int));
                assert(self@.take(i + 1).last() == self@[i as int]);
            }
            i += 1;
        }
        proof {
            assert(self@.take(self@.len() as int) =~= self@);
        }
        n
    }
}

} // verus!
