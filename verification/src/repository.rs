//! The post repository: from the raw contents of the content directory to
//! the immutable, ordered index of published posts.
//!
//! A file that fails to parse is silently dropped; a post whose `draft`
//! field is `true` is dropped; the survivors are ordered by authoring
//! instant, newest first, with ties kept in input order.
use vstd::prelude::*;

use crate::frontmatter::FrontMatter;
use crate::frontmatter::FrontMatterView;
use crate::frontmatter::Timestamp;
use crate::frontmatter::from_source_spec;
use crate::frontmatter::ts_le;
use crate::frontmatter::ts_lt;

verus! {

/// The view of a sequence of records.
pub open spec fn views_of(s: Seq<FrontMatter>) -> Seq<FrontMatterView> {
    s.map_values(|p: FrontMatter| p@)
}

/// A record survives the draft filter: an absent flag counts as published
/// here, though a brand-new record starts as a hidden draft.
pub open spec fn keeps(fm: FrontMatterView) -> bool {
    fm.draft != Some(true)
}

/// The records of the files that parse and are not drafts, in file order.
pub open spec fn published_of(files: Seq<Seq<char>>) -> Seq<FrontMatterView>
    decreases files.len(),
{
    if files.len() == 0 {
        Seq::empty()
    } else {
        let rest = published_of(files.drop_last());
        match from_source_spec(files.last()) {
            Some(fm) => if keeps(fm) {
                rest.push(fm)
            } else {
                rest
            },
            None => rest,
        }
    }
}

/// Where a record lands in an ordered sequence: after every record at or
/// after its instant, before every record strictly before it.  Inserting a
/// record this way keeps records with equal instants in arrival order.
pub open spec fn insert_desc(x: FrontMatterView, s: Seq<FrontMatterView>) -> Seq<FrontMatterView>
    decreases s.len(),
{
    if s.len() == 0 {
        seq![x]
    } else if ts_lt(s.last().date, x.date) {
        insert_desc(x, s.drop_last()).push(s.last())
    } else {
        s.push(x)
    }
}

/// The stable descending sort by instant: each record in turn is placed by
/// `insert_desc`.
pub open spec fn sort_desc(s: Seq<FrontMatterView>) -> Seq<FrontMatterView>
    decreases s.len(),
{
    if s.len() == 0 {
        Seq::empty()
    } else {
        insert_desc(s.last(), sort_desc(s.drop_last()))
    }
}

/// The sequence is ordered newest first.
pub open spec fn sorted_desc(s: Seq<FrontMatterView>) -> bool {
    forall|i: int, j: int| 0 <= i < j < s.len() ==> ts_le(#[trigger] s[j].date, #[trigger] s[i].date)
}

/// The index the repository build yields for given file contents.
pub open spec fn repository_spec(files: Seq<Seq<char>>) -> Seq<FrontMatterView> {
    sort_desc(published_of(files))
}

/// The shared state of the service: the index of published posts.  Built
/// once at startup and then only read, so request handlers may share it
/// freely.
pub struct AppState {
    pub posts: Vec<FrontMatter>,
}

/// Inserting at a position below everything strictly older and at or above
/// everything else is exactly `insert_desc`.
proof fn lemma_insert_at_index(s: Seq<FrontMatterView>, x: FrontMatterView, j: int)
    requires
        0 <= j <= s.len(),
        forall|k: int| j <= k < s.len() ==> ts_lt(#[trigger] s[k].date, x.date),
        j > 0 ==> !ts_lt(s[j - 1].date, x.date),
    ensures
        s.insert(j, x) == insert_desc(x, s),
    decreases s.len(),
{
    if s.len() == 0 {
        assert(s.insert(0, x) =~= seq![x]);
    } else if ts_lt(s.last().date, x.date) {
        assert(j < s.len());
        lemma_insert_at_index(s.drop_last(), x, j);
        assert(s.insert(j, x) =~= s.drop_last().insert(j, x).push(s.last()));
    } else {
        assert(j == s.len());
        assert(s.insert(j, x) =~= s.push(x));
    }
}

/// Places one record into an ordered vector, newest first, after any record
/// with the same instant.
fn insert_sorted(v: &mut Vec<FrontMatter>, p: FrontMatter)
    ensures
        views_of(final(v)@) == insert_desc(p@, views_of(old(v)@)),
{
    let mut j: usize = v.len();
    while j > 0 && v[j - 1].date.is_before(&p.date)
        invariant
            j <= v.len(),
            forall|k: int| j <= k < v@.len() ==> ts_lt(#[trigger] v@[k]@.date, p@.date),
        decreases j,
    {
        j = j - 1;
    }
    v.insert(j, p);
    proof {
        let ghost s = views_of(old(v)@);
        lemma_insert_at_index(s, p@, j as int);
        assert(views_of(v@) =~= s.insert(j as int, p@));
    }
}

/// Builds the repository: parses every file, drops failures and drafts, and
/// orders the survivors newest first, ties in input order.
pub fn build_repository(files: Vec<String>) -> (r: Vec<FrontMatter>)
    ensures
        views_of(r@) == repository_spec(files.deep_view()),
{
    let ghost fs = files.deep_view();
    let mut out: Vec<FrontMatter> = Vec::new();
    proof {
        assert(views_of(out@) =~= Seq::<FrontMatterView>::empty());
        assert(fs.take(0) =~= Seq::<Seq<char>>::empty());
    }
    let mut i: usize = 0;
    while i < files.len()
        invariant
            i <= files.len(),
            fs == files.deep_view(),
            fs.len() == files@.len(),
            forall|k: int| 0 <= k < files@.len() ==> fs[k] == files@[k]@,
            views_of(out@) == sort_desc(published_of(fs.take(i as int))),
        decreases files.len() - i,
    {
        let ghost prefix = fs.take(i as int);
        let ghost next = fs.take(i + 1);
        proof {
            assert(next.drop_last() =~= prefix);
            assert(next.last() == fs[i as int]);
        }
        let file = files[i].clone();
        proof {
            assert(file@ == fs[i as int]);
        }
        match FrontMatter::from_file(file) {
            Ok(p) => {
                if !p.draft.unwrap_or(false) {
                    proof {
                        assert(published_of(next) == published_of(prefix).push(p@));
                        assert(published_of(next).drop_last() =~= published_of(prefix));
                        assert(sort_desc(published_of(next)) == insert_desc(
                            p@,
                            sort_desc(published_of(prefix)),
                        ));
                    }
                    insert_sorted(&mut out, p);
                } else {
                    proof {
                        assert(published_of(next) == published_of(prefix));
                    }
                }
            },
            Err(_) => {
                proof {
                    assert(published_of(next) == published_of(prefix));
                }
            },
        }
        i = i + 1;
    }
    proof {
        assert(fs.take(files@.len() as int) =~= fs);
    }
    out
}

// ---------------------------------------------------------------------------
// Laws of the build
// ---------------------------------------------------------------------------
/// Some record in `s` carries the instant `d`.
pub open spec fn has_date(s: Seq<FrontMatterView>, d: Timestamp) -> bool {
    exists|k: int| 0 <= k < s.len() && s[k].date == d
}

/// No two records in `s` carry the same instant.
pub open spec fn distinct_dates(s: Seq<FrontMatterView>) -> bool {
    forall|i: int, j: int| 0 <= i < j < s.len() ==> #[trigger] s[i].date != #[trigger] s[j].date
}

proof fn lemma_insert_desc_elems(x: FrontMatterView, s: Seq<FrontMatterView>)
    ensures
        insert_desc(x, s).len() == s.len() + 1,
        forall|i: int|
            0 <= i < insert_desc(x, s).len() ==> #[trigger] insert_desc(x, s)[i] == x
                || s.contains(insert_desc(x, s)[i]),
    decreases s.len(),
{
    if s.len() == 0 {
    } else if ts_lt(s.last().date, x.date) {
        let t = s.drop_last();
        lemma_insert_desc_elems(x, t);
        let r = insert_desc(x, s);
        assert forall|i: int| 0 <= i < r.len() implies #[trigger] r[i] == x || s.contains(r[i]) by {
            if i < r.len() - 1 {
                assert(r[i] == insert_desc(x, t)[i]);
                if insert_desc(x, t)[i] != x {
                    let k = choose|k: int| 0 <= k < t.len() && t[k] == insert_desc(x, t)[i];
                    assert(s[k] == r[i]);
                }
            } else {
                assert(r[i] == s.last());
                assert(s[s.len() - 1] == s.last());
            }
        }
    } else {
        assert forall|i: int|
            0 <= i < insert_desc(x, s).len() implies #[trigger] insert_desc(x, s)[i] == x
            || s.contains(insert_desc(x, s)[i]) by {
            if i < s.len() {
                assert(insert_desc(x, s)[i] == s[i]);
            }
        }
    }
}

proof fn lemma_insert_desc_lower(x: FrontMatterView, s: Seq<FrontMatterView>, b: Timestamp)
    requires
        forall|k: int| 0 <= k < s.len() ==> ts_le(b, #[trigger] s[k].date),
        ts_le(b, x.date),
    ensures
        forall|i: int|
            0 <= i < insert_desc(x, s).len() ==> ts_le(b, #[trigger] insert_desc(x, s)[i].date),
    decreases s.len(),
{
    if s.len() == 0 {
    } else if ts_lt(s.last().date, x.date) {
        lemma_insert_desc_lower(x, s.drop_last(), b);
        assert(ts_le(b, s.last().date));
    } else {
        assert forall|i: int|
            0 <= i < insert_desc(x, s).len() implies ts_le(
            b,
            #[trigger] insert_desc(x, s)[i].date,
        ) by {
            if i < s.len() {
                assert(insert_desc(x, s)[i] == s[i]);
            }
        }
    }
}

proof fn lemma_insert_desc_sorted(x: FrontMatterView, s: Seq<FrontMatterView>)
    requires
        sorted_desc(s),
    ensures
        sorted_desc(insert_desc(x, s)),
    decreases s.len(),
{
    if s.len() == 0 {
    } else if ts_lt(s.last().date, x.date) {
        let t = s.drop_last();
        assert(sorted_desc(t)) by {
            assert(forall|k: int| 0 <= k < t.len() ==> t[k] == s[k]);
        }
        lemma_insert_desc_sorted(x, t);
        assert(forall|k: int| 0 <= k < t.len() ==> ts_le(s.last().date, #[trigger] t[k].date));
        lemma_insert_desc_lower(x, t, s.last().date);
        let r = insert_desc(x, s);
        let r0 = insert_desc(x, t);
        assert forall|i: int, j: int| 0 <= i < j < r.len() implies ts_le(
            #[trigger] r[j].date,
            #[trigger] r[i].date,
        ) by {
            if j < r.len() - 1 {
                assert(r[i] == r0[i] && r[j] == r0[j]);
            } else {
                assert(r[j] == s.last());
                assert(r[i] == r0[i]);
            }
        }
    } else {
        let r = insert_desc(x, s);
        assert forall|i: int, j: int| 0 <= i < j < r.len() implies ts_le(
            #[trigger] r[j].date,
            #[trigger] r[i].date,
        ) by {
            if j < s.len() {
            } else {
                assert(r[j] == x);
                assert(r[i] == s[i]);
                assert(ts_le(x.date, s.last().date));
                if i < s.len() - 1 {
                    assert(ts_le(s.last().date, s[i].date));
                }
            }
        }
    }
}

/// The built order is sorted, newest first.
pub proof fn lemma_sort_desc_sorted(s: Seq<FrontMatterView>)
    ensures
        sorted_desc(sort_desc(s)),
    decreases s.len(),
{
    if s.len() == 0 {
    } else {
        lemma_sort_desc_sorted(s.drop_last());
        lemma_insert_desc_sorted(s.last(), sort_desc(s.drop_last()));
    }
}

proof fn lemma_insert_desc_multiset(x: FrontMatterView, s: Seq<FrontMatterView>)
    ensures
        insert_desc(x, s).to_multiset() == s.to_multiset().insert(x),
    decreases s.len(),
{
    broadcast use vstd::seq_lib::group_seq_lib_default;

    if s.len() == 0 {
        assert(s =~= Seq::<FrontMatterView>::empty());
        assert(insert_desc(x, s) =~= s.push(x));
        s.to_multiset_ensures();
    } else if ts_lt(s.last().date, x.date) {
        let t = s.drop_last();
        lemma_insert_desc_multiset(x, t);
        insert_desc(x, t).to_multiset_ensures();
        t.to_multiset_ensures();
        assert(s =~= t.push(s.last()));
        assert(insert_desc(x, s).to_multiset() =~= t.to_multiset().insert(x).insert(s.last()));
        assert(s.to_multiset().insert(x) =~= t.to_multiset().insert(s.last()).insert(x));
        assert(t.to_multiset().insert(x).insert(s.last()) =~= t.to_multiset().insert(
            s.last(),
        ).insert(x));
    } else {
        s.to_multiset_ensures();
    }
}

/// The built order is a permutation of the filtered records.
pub proof fn lemma_sort_desc_multiset(s: Seq<FrontMatterView>)
    ensures
        sort_desc(s).to_multiset() == s.to_multiset(),
        sort_desc(s).len() == s.len(),
    decreases s.len(),
{
    if s.len() == 0 {
        assert(s =~= Seq::<FrontMatterView>::empty());
        assert(sort_desc(s) == s);
    } else {
        let t = s.drop_last();
        lemma_sort_desc_multiset(t);
        lemma_insert_desc_multiset(s.last(), sort_desc(t));
        lemma_insert_desc_elems(s.last(), sort_desc(t));
        t.to_multiset_ensures();
        assert(s =~= t.push(s.last()));
        assert(sort_desc(s).to_multiset() =~= t.to_multiset().insert(s.last()));
    }
}

proof fn lemma_insert_desc_has_date(x: FrontMatterView, s: Seq<FrontMatterView>, d: Timestamp)
    ensures
        has_date(insert_desc(x, s), d) <==> (has_date(s, d) || x.date == d),
    decreases s.len(),
{
    let r = insert_desc(x, s);
    if s.len() == 0 {
        assert(r[0] == x);
        if has_date(s, d) {
            let k = choose|k: int| 0 <= k < s.len() && s[k].date == d;
        }
    } else if ts_lt(s.last().date, x.date) {
        let t = s.drop_last();
        lemma_insert_desc_has_date(x, t, d);
        let r0 = insert_desc(x, t);
        assert(forall|i: int| 0 <= i < r0.len() ==> r[i] == #[trigger] r0[i]);
        assert(r.last() == s.last());
        if has_date(r, d) {
            let k = choose|k: int| 0 <= k < r.len() && r[k].date == d;
            if k < r0.len() {
                assert(has_date(r0, d));
                if has_date(t, d) {
                    let m = choose|m: int| 0 <= m < t.len() && t[m].date == d;
                    assert(s[m].date == d);
                    assert(has_date(s, d));
                }
            } else {
                assert(s.last().date == d);
                assert(s[s.len() - 1].date == d);
                assert(has_date(s, d));
            }
        }
        if has_date(s, d) {
            let k = choose|k: int| 0 <= k < s.len() && s[k].date == d;
            if k < s.len() - 1 {
                assert(t[k].date == d);
                assert(has_date(t, d));
                let m = choose|m: int| 0 <= m < r0.len() && r0[m].date == d;
                assert(r[m].date == d);
                assert(has_date(r, d));
            } else {
                assert(r.last().date == d);
                assert(has_date(r, d));
            }
        }
        if x.date == d {
            let m = choose|m: int| 0 <= m < r0.len() && r0[m].date == d;
            assert(r[m].date == d);
            assert(has_date(r, d));
        }
    } else {
        assert(r.last() == x);
        assert(forall|i: int| 0 <= i < s.len() ==> r[i] == #[trigger] s[i]);
        if has_date(r, d) {
            let k = choose|k: int| 0 <= k < r.len() && r[k].date == d;
            if k < s.len() {
                assert(has_date(s, d));
            }
        }
        if has_date(s, d) {
            let k = choose|k: int| 0 <= k < s.len() && s[k].date == d;
            assert(r[k].date == d);
            assert(has_date(r, d));
        }
    }
}

proof fn lemma_sort_desc_has_date(s: Seq<FrontMatterView>, d: Timestamp)
    ensures
        has_date(sort_desc(s), d) <==> has_date(s, d),
    decreases s.len(),
{
    if s.len() == 0 {
    } else {
        let t = s.drop_last();
        lemma_sort_desc_has_date(t, d);
        lemma_insert_desc_has_date(s.last(), sort_desc(t), d);
        assert(has_date(s, d) <==> (has_date(t, d) || s.last().date == d)) by {
            if has_date(s, d) {
                let k = choose|k: int| 0 <= k < s.len() && s[k].date == d;
                if k < s.len() - 1 {
                    assert(t[k].date == d);
                    assert(has_date(t, d));
                }
            }
            if has_date(t, d) {
                let k = choose|k: int| 0 <= k < t.len() && t[k].date == d;
                assert(s[k].date == d);
                assert(has_date(s, d));
            }
            if s.last().date == d {
                assert(s[s.len() - 1].date == d);
                assert(has_date(s, d));
            }
        }
    }
}

proof fn lemma_insert_desc_distinct(x: FrontMatterView, s: Seq<FrontMatterView>)
    requires
        distinct_dates(s),
        !has_date(s, x.date),
    ensures
        distinct_dates(insert_desc(x, s)),
    decreases s.len(),
{
    let r = insert_desc(x, s);
    if s.len() == 0 {
    } else if ts_lt(s.last().date, x.date) {
        let t = s.drop_last();
        assert(forall|k: int| 0 <= k < t.len() ==> t[k] == #[trigger] s[k]);
        assert(!has_date(t, x.date)) by {
            if has_date(t, x.date) {
                let k = choose|k: int| 0 <= k < t.len() && t[k].date == x.date;
                assert(s[k].date == x.date);
                assert(has_date(s, x.date));
            }
        }
        lemma_insert_desc_distinct(x, t);
        lemma_insert_desc_elems(x, t);
        let r0 = insert_desc(x, t);
        assert forall|i: int, j: int| 0 <= i < j < r.len() implies #[trigger] r[i].date
            != #[trigger] r[j].date by {
            if j < r.len() - 1 {
                assert(r[i] == r0[i] && r[j] == r0[j]);
            } else {
                assert(r[j] == s.last());
                assert(r[i] == r0[i]);
                if r0[i] == x {
                    if x.date == s.last().date {
                        assert(s[s.len() - 1].date == x.date);
                        assert(has_date(s, x.date));
                    }
                } else {
                    let k = choose|k: int| 0 <= k < t.len() && t[k] == r0[i];
                    assert(s[k] == r0[i]);
                }
            }
        }
    } else {
        assert forall|i: int, j: int| 0 <= i < j < r.len() implies #[trigger] r[i].date
            != #[trigger] r[j].date by {
            if j < s.len() {
                assert(r[i] == s[i] && r[j] == s[j]);
            } else {
                assert(r[j] == x);
                assert(r[i] == s[i]);
                if s[i].date == x.date {
                    assert(has_date(s, x.date));
                }
            }
        }
    }
}

proof fn lemma_sort_desc_distinct(s: Seq<FrontMatterView>)
    requires
        distinct_dates(s),
    ensures
        distinct_dates(sort_desc(s)),
    decreases s.len(),
{
    if s.len() == 0 {
    } else {
        let t = s.drop_last();
        assert(forall|k: int| 0 <= k < t.len() ==> t[k] == #[trigger] s[k]);
        lemma_sort_desc_distinct(t);
        lemma_sort_desc_has_date(t, s.last().date);
        assert(!has_date(t, s.last().date)) by {
            if has_date(t, s.last().date) {
                let k = choose|k: int| 0 <= k < t.len() && t[k].date == s.last().date;
                assert(s[k].date == s[s.len() - 1].date);
            }
        }
        lemma_insert_desc_distinct(s.last(), sort_desc(t));
    }
}

/// Every record of the filtered sequence is a kept record of some file.
proof fn lemma_published_keeps(files: Seq<Seq<char>>)
    ensures
        forall|i: int|
            0 <= i < published_of(files).len() ==> keeps(#[trigger] published_of(files)[i]),
    decreases files.len(),
{
    if files.len() == 0 {
    } else {
        lemma_published_keeps(files.drop_last());
        let rest = published_of(files.drop_last());
        let p = published_of(files);
        assert forall|i: int| 0 <= i < p.len() implies keeps(p[i]) by {
            match from_source_spec(files.last()) {
                Some(fm) => {
                    if keeps(fm) {
                        if i < rest.len() {
                            assert(p[i] == rest[i]);
                        } else {
                            assert(p[i] == fm);
                        }
                    } else {
                        assert(p[i] == rest[i]);
                    }
                },
                None => {
                    assert(p[i] == rest[i]);
                },
            }
        }
    }
}

proof fn lemma_published_contains(files: Seq<Seq<char>>, i: int, fm: FrontMatterView)
    requires
        0 <= i < files.len(),
        from_source_spec(files[i]) == Some(fm),
        keeps(fm),
    ensures
        published_of(files).contains(fm),
    decreases files.len(),
{
    let rest = published_of(files.drop_last());
    if i == files.len() - 1 {
        assert(files.last() == files[i]);
        assert(published_of(files) == rest.push(fm));
        assert(published_of(files).last() == fm);
    } else {
        assert(files.drop_last()[i] == files[i]);
        lemma_published_contains(files.drop_last(), i, fm);
        let k = choose|k: int| 0 <= k < rest.len() && rest[k] == fm;
        assert(published_of(files)[k] == fm);
    }
}

// ---------------------------------------------------------------------------
// The public laws
// ---------------------------------------------------------------------------
/// The built repository is ordered newest first, and is a permutation of
/// the records of the files that parse and are not drafts.
pub proof fn lemma_repository_order(files: Seq<Seq<char>>)
    ensures
        sorted_desc(repository_spec(files)),
        repository_spec(files).to_multiset() == published_of(files).to_multiset(),
        repository_spec(files).len() == published_of(files).len(),
{
    lemma_sort_desc_sorted(published_of(files));
    lemma_sort_desc_multiset(published_of(files));
}

/// A record marked `draft = true` never stands in the built repository.
pub proof fn lemma_repository_excludes_drafts(files: Seq<Seq<char>>)
    ensures
        forall|i: int|
            0 <= i < repository_spec(files).len() ==> (#[trigger] repository_spec(
                files,
            )[i]).draft != Some(true),
{
    let p = published_of(files);
    lemma_published_keeps(files);
    lemma_sort_desc_multiset(p);
    p.to_multiset_ensures();
    sort_desc(p).to_multiset_ensures();
    assert forall|i: int| 0 <= i < repository_spec(files).len() implies (
    #[trigger] repository_spec(files)[i]).draft != Some(true) by {
        assert(sort_desc(p).contains(sort_desc(p)[i]));
        let fm = sort_desc(p)[i];
        assert(p.to_multiset().count(fm) > 0);
        let k = choose|k: int| 0 <= k < p.len() && p[k] == fm;
        assert(keeps(p[k]));
    }
}

/// A record whose file parses and whose `draft` flag is absent or `false`
/// always stands in the built repository.
pub proof fn lemma_repository_includes_published(files: Seq<Seq<char>>, i: int, fm: FrontMatterView)
    requires
        0 <= i < files.len(),
        from_source_spec(files[i]) == Some(fm),
        fm.draft != Some(true),
    ensures
        repository_spec(files).contains(fm),
{
    let p = published_of(files);
    lemma_sort_desc_multiset(p);
    p.to_multiset_ensures();
    sort_desc(p).to_multiset_ensures();
    lemma_published_contains(files, i, fm);
    assert(p.to_multiset().count(fm) > 0);
    assert(sort_desc(p).to_multiset().count(fm) > 0);
}

impl AppState {
    /// The index is well-formed: ordered newest first and free of drafts.
    pub open spec fn wf(&self) -> bool {
        &&& sorted_desc(views_of(self.posts@))
        &&& forall|i: int|
            0 <= i < self.posts@.len() ==> (#[trigger] views_of(self.posts@)[i]).draft != Some(
                true,
            )
    }

    /// Builds the shared state from the content directory's raw files.
    pub fn from_files(files: Vec<String>) -> (r: AppState)
        ensures
            views_of(r.posts@) == repository_spec(files.deep_view()),
            r.wf(),
    {
        let ghost fs = files.deep_view();
        let posts = build_repository(files);
        proof {
            lemma_repository_order(fs);
            lemma_repository_excludes_drafts(fs);
        }
        AppState { posts }
    }
}

/// With pairwise distinct instants among the published records, the built
/// repository is ordered strictly descending.
pub proof fn lemma_repository_strictly_descending(files: Seq<Seq<char>>)
    requires
        distinct_dates(published_of(files)),
    ensures
        forall|i: int, j: int|
            0 <= i < j < repository_spec(files).len() ==> ts_lt(
                #[trigger] repository_spec(files)[j].date,
                #[trigger] repository_spec(files)[i].date,
            ),
{
    let r = repository_spec(files);
    lemma_sort_desc_sorted(published_of(files));
    lemma_sort_desc_distinct(published_of(files));
    assert forall|i: int, j: int| 0 <= i < j < r.len() implies ts_lt(
        #[trigger] r[j].date,
        #[trigger] r[i].date,
    ) by {
        assert(ts_le(r[j].date, r[i].date));
        assert(r[i].date != r[j].date);
    }
}

} // verus!
