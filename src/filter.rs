//! Which clusters a discovery covers: a cluster is kept when no filter is
//! given, or when one of the filters occurs in its identifier.
use vstd::prelude::*;

verus! {

broadcast use vstd::string::axiom_spec_iter;

/// `needle` occurs in `hay` starting at position `i`.
pub open spec fn occurs_at(hay: Seq<char>, needle: Seq<char>, i: int) -> bool {
    0 <= i && i + needle.len() <= hay.len() && hay.subrange(i, i + needle.len()) == needle
}

/// `needle` occurs in `hay` (case-sensitive; the empty string occurs everywhere).
pub open spec fn is_substring(needle: Seq<char>, hay: Seq<char>) -> bool {
    exists|i: int| occurs_at(hay, needle, i)
}

/// The views of a list of strings.
pub open spec fn views(v: Seq<String>) -> Seq<Seq<char>> {
    v.map_values(|s: String| s@)
}

/// A cluster is kept when there are no filters, or when one filter occurs
/// in its identifier.
pub open spec fn kept_by(filters: Seq<Seq<char>>, cluster: Seq<char>) -> bool {
    filters.len() == 0 || exists|j: int| 0 <= j < filters.len() && is_substring(#[trigger] filters[j], cluster)
}

/// The clusters that the filters keep, in their order.
pub open spec fn kept_clusters(filters: Seq<Seq<char>>, clusters: Seq<Seq<char>>) -> Seq<Seq<char>>
    decreases clusters.len(),
{
    if clusters.len() == 0 {
        seq![]
    } else {
        let rest = kept_clusters(filters, clusters.drop_last());
        if kept_by(filters, clusters.last()) {
            rest.push(clusters.last())
        } else {
            rest
        }
    }
}

fn chars_of(s: &str) -> (r: Vec<char>)
    ensures
        r@ == s@,
{
    let mut r: Vec<char> = Vec::new();
    for c in it: s.chars()
        invariant
            it.seq() == s@,
            r@ == s@.take(it.index() as int),
    {
        r.push(c);
        assert(r@ =~= s@.take(it.index() + 1));
    }
    assert(s@.take(s@.len() as int) == s@);
    r
}

fn occurs_at_exec(hay: &Vec<char>, needle: &Vec<char>, i: usize) -> (r: bool)
    requires
        i + needle@.len() <= hay@.len(),
    ensures
        r == occurs_at(hay@, needle@, i as int),
{
    let n = needle.len();
    let hl = hay.len();
    for j in 0..n
        invariant
            n == needle@.len(),
            hl == hay@.len(),
            i + n <= hay@.len(),
            forall|k: int| 0 <= k < j ==> hay@[i + k] == needle@[k],
    {
        if hay[i + j] != needle[j] {
            assert(hay@.subrange(i as int, i + n)[j as int] != needle@[j as int]);
            return false;
        }
    }
    assert(hay@.subrange(i as int, i + n) =~= needle@);
    true
}

/// Whether `needle` occurs in `hay`.
pub fn contains_str(hay: &str, needle: &str) -> (r: bool)
    ensures
        r == is_substring(needle@, hay@),
{
    let h = chars_of(hay);
    let n = chars_of(needle);
    if n.len() > h.len() {
        return false;
    }
    let last = h.len() - n.len();
    let mut i: usize = 0;
    loop
        invariant
            h@ == hay@,
            n@ == needle@,
            last == h@.len() - n@.len(),
            i <= last,
            forall|k: int| 0 <= k < i ==> !occurs_at(hay@, needle@, k),
        decreases last - i,
    {
        if occurs_at_exec(&h, &n, i) {
            return true;
        }
        if i == last {
            return false;
        }
        i = i + 1;
    }
}

/// Whether the filters keep a cluster: yes when there are none, else when
/// one of them occurs in the cluster's identifier.
pub fn cluster_included(filters: &Vec<String>, cluster: &String) -> (r: bool)
    ensures
        r == kept_by(views(filters@), cluster@),
{
    if filters.len() == 0 {
        return true;
    }
    let ghost fv = views(filters@);
    for j in 0..filters.len()
        invariant
            fv == views(filters@),
            forall|k: int| 0 <= k < j ==> !is_substring(#[trigger] fv[k], cluster@),
    {
        if contains_str(cluster.as_str(), filters[j].as_str()) {
            assert(is_substring(fv[j as int], cluster@));
            return true;
        }
    }
    false
}

/// The clusters that the filters keep, in the order listed.
pub fn select_clusters(clusters: Vec<String>, filters: &Vec<String>) -> (r: Vec<String>)
    ensures
        views(r@) == kept_clusters(views(filters@), views(clusters@)),
{
    let mut r: Vec<String> = Vec::new();
    let ghost all = clusters@;
    let ghost fv = views(filters@);
    for c in it: clusters.into_iter()
        invariant
            it.seq() == all,
            fv == views(filters@),
            views(r@) == kept_clusters(fv, views(all.take(it.index() as int))),
    {
        let ghost k = it.index() as int;
        proof {
            assert(views(all.take(k + 1)).drop_last() =~= views(all.take(k)));
            assert(views(all.take(k + 1)).last() == c@);
        }
        if cluster_included(filters, &c) {
            r.push(c);
        }
        assert(views(r@) =~= kept_clusters(fv, views(all.take(k + 1))));
    }
    assert(all.take(all.len() as int) == all);
    r
}

/// With no filter every cluster is kept, in the order listed.
pub proof fn lemma_no_filter_keeps_all(clusters: Seq<Seq<char>>)
    ensures
        kept_clusters(seq![], clusters) == clusters,
    decreases clusters.len(),
{
    if clusters.len() > 0 {
        lemma_no_filter_keeps_all(clusters.drop_last());
    }
}

/// The kept clusters are exactly the listed ones that a filter occurs in.
pub proof fn lemma_kept_are_the_matching(filters: Seq<Seq<char>>, clusters: Seq<Seq<char>>)
    ensures
        forall|c: Seq<char>| #[trigger] kept_clusters(filters, clusters).contains(c)
            <==> clusters.contains(c) && kept_by(filters, c),
    decreases clusters.len(),
{
    if clusters.len() > 0 {
        let rest = clusters.drop_last();
        lemma_kept_are_the_matching(filters, rest);
        assert forall|c: Seq<char>| #[trigger] clusters.contains(c) <==> rest.contains(c) || c == clusters.last() by {
            if clusters.contains(c) {
                let i = choose|i: int| 0 <= i < clusters.len() && clusters[i] == c;
                if i < clusters.len() - 1 {
                    assert(rest[i] == c);
                }
            }
            if rest.contains(c) {
                let i = choose|i: int| 0 <= i < rest.len() && rest[i] == c;
                assert(clusters[i] == c);
            }
            if c == clusters.last() {
                assert(clusters[clusters.len() - 1] == c);
            }
        }
        let k = kept_clusters(filters, rest);
        assert forall|c: Seq<char>| #[trigger] k.push(clusters.last()).contains(c) <==> k.contains(c) || c == clusters.last() by {
            if k.push(clusters.last()).contains(c) {
                let i = choose|i: int| 0 <= i < k.len() + 1 && k.push(clusters.last())[i] == c;
                if i < k.len() {
                    assert(k[i] == c);
                }
            }
            if k.contains(c) {
                let i = choose|i: int| 0 <= i < k.len() && k[i] == c;
                assert(k.push(clusters.last())[i] == c);
            }
            if c == clusters.last() {
                assert(k.push(clusters.last())[k.len() as int] == c);
            }
        }
    }
}

} // verus!
