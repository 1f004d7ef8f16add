//! The result of a discovery: each kept cluster with the images that its
//! services run.
use vstd::prelude::*;

use crate::model::Image;
use crate::resolve::{has_failure, is_first_failure};

verus! {

/// The mapping that joined cluster results give, when none failed: each
/// cluster to its images; a cluster listed twice keeps its later images.
pub open spec fn joined_map<E>(results: Seq<Result<(String, Vec<Image>), E>>) -> Map<Seq<char>, Seq<Image>>
    decreases results.len(),
{
    if results.len() == 0 {
        Map::empty()
    } else {
        let rest = joined_map(results.drop_last());
        match results.last() {
            Ok((cluster, images)) => rest.insert(cluster@, images@),
            Err(_) => rest,
        }
    }
}

/// Clusters and their images; each cluster appears once.
pub struct Inventory {
    entries: Vec<(String, Vec<Image>)>,
    map: Ghost<Map<Seq<char>, Seq<Image>>>,
}

impl View for Inventory {
    type V = Map<Seq<char>, Seq<Image>>;

    closed spec fn view(&self) -> Map<Seq<char>, Seq<Image>> {
        self.map@
    }
}

impl Inventory {
    /// The entries stand one for one for the mapping.
    pub closed spec fn wf(&self) -> bool {
        &&& forall|i: int|
            0 <= i < self.entries@.len() ==> self.map@.contains_key(#[trigger] self.entries@[i].0@)
                && self.map@[self.entries@[i].0@] == self.entries@[i].1@
        &&& forall|k: Seq<char>|
            #[trigger] self.map@.contains_key(k) ==> exists|i: int|
                0 <= i < self.entries@.len() && #[trigger] self.entries@[i].0@ == k
        &&& forall|i: int, j: int|
            0 <= i < self.entries@.len() && 0 <= j < self.entries@.len() && i != j
                ==> #[trigger] self.entries@[i].0@ != #[trigger] self.entries@[j].0@
    }

    /// An inventory with no cluster.
    pub fn new() -> (r: Self)
        ensures
            r.wf(),
            r@ == Map::<Seq<char>, Seq<Image>>::empty(),
    {
        Inventory { entries: Vec::new(), map: Ghost(Map::empty()) }
    }

    /// Where a cluster stands among the entries, if it is there.
    fn position(&self, cluster: &String) -> (r: Option<usize>)
        ensures
            r is Some ==> r->0 < self.entries@.len() && self.entries@[r->0 as int].0@ == cluster@,
            r is None ==> forall|k: int| 0 <= k < self.entries@.len() ==> (#[trigger] self.entries@[k]).0@ != cluster@,
    {
        let n = self.entries.len();
        for i in 0..n
            invariant
                n == self.entries@.len(),
                forall|k: int| 0 <= k < i ==> (#[trigger] self.entries@[k]).0@ != cluster@,
        {
            if self.entries[i].0 == *cluster {
                return Some(i);
            }
        }
        None
    }

    /// Records the images of a cluster, in place of any it had.
    pub fn insert(&mut self, cluster: String, images: Vec<Image>)
        requires
            old(self).wf(),
        ensures
            final(self).wf(),
            final(self)@ == old(self)@.insert(cluster@, images@),
    {
        let ghost key = cluster@;
        let ghost old_entries = self.entries@;
        let pos = self.position(&cluster);
        let ghost at: int;
        match pos {
            Some(i) => {
                self.entries[i] = (cluster, images);
                proof {
                    at = i as int;
                }
            },
            None => {
                self.entries.push((cluster, images));
                proof {
                    at = old_entries.len() as int;
                }
            },
        }
        self.map = Ghost(self.map@.insert(key, images@));
        assert(self.entries@[at].0@ == key);
        assert forall|k: Seq<char>| #[trigger] self.map@.contains_key(k) implies exists|j: int|
            0 <= j < self.entries@.len() && #[trigger] self.entries@[j].0@ == k by {
            if k != key {
                let j = choose|j: int| 0 <= j < old_entries.len() && #[trigger] old_entries[j].0@ == k;
                assert(self.entries@[j].0@ == k);
            } else {
                assert(self.entries@[at].0@ == k);
            }
        }
    }

    /// The images recorded for a cluster, if it is in the inventory.
    pub fn get(&self, cluster: &String) -> (r: Option<&Vec<Image>>)
        requires
            self.wf(),
        ensures
            r is Some <==> self@.contains_key(cluster@),
            r is Some ==> r->0@ == self@[cluster@],
    {
        match self.position(cluster) {
            Some(i) => Some(&self.entries[i].1),
            None => {
                proof {
                    if self@.contains_key(cluster@) {
                        let j = choose|j: int| 0 <= j < self.entries@.len() && #[trigger] self.entries@[j].0@ == cluster@;
                        assert(self.entries@[j].0@ != cluster@);
                    }
                }
                None
            },
        }
    }

    /// The number of clusters in the inventory.
    pub fn len(&self) -> (r: usize)
        requires
            self.wf(),
        ensures
            r == self@.dom().len(),
    {
        proof {
            let keys = self.entries@.map_values(|e: (String, Vec<Image>)| e.0@);
            assert(keys.no_duplicates());
            assert(keys.to_set() =~= self@.dom()) by {
                assert forall|k: Seq<char>| #[trigger] self@.dom().contains(k) implies keys.to_set().contains(k) by {
                    let j = choose|j: int| 0 <= j < self.entries@.len() && #[trigger] self.entries@[j].0@ == k;
                    assert(keys[j] == k);
                }
                assert forall|k: Seq<char>| #[trigger] keys.to_set().contains(k) implies self@.dom().contains(k) by {
                    let j = choose|j: int| 0 <= j < keys.len() && keys[j] == k;
                    assert(self.entries@[j].0@ == k);
                }
            }
            keys.unique_seq_to_set();
        }
        self.entries.len()
    }

    /// The clusters and their images, each cluster once.
    pub fn into_entries(self) -> (r: Vec<(String, Vec<Image>)>)
        requires
            self.wf(),
        ensures
            forall|i: int| 0 <= i < r@.len() ==> self@.contains_key(#[trigger] r@[i].0@)
                && self@[r@[i].0@] == r@[i].1@,
            forall|k: Seq<char>| #[trigger] self@.contains_key(k) ==> exists|i: int|
                0 <= i < r@.len() && #[trigger] r@[i].0@ == k,
            forall|i: int, j: int| 0 <= i < r@.len() && 0 <= j < r@.len() && i != j
                ==> #[trigger] r@[i].0@ != #[trigger] r@[j].0@,
    {
        self.entries
    }
}

/// Joins the results of the clusters' scans into the inventory. The join
/// fails as a whole, with its first failure, if any scan failed.
pub fn build_inventory<E>(results: Vec<Result<(String, Vec<Image>), E>>) -> (r: Result<Inventory, E>)
    ensures
        r is Err <==> has_failure(results@),
        r is Err ==> is_first_failure(results@, r->Err_0),
        r is Ok ==> r->Ok_0.wf() && r->Ok_0@ == joined_map(results@),
{
    let mut inv = Inventory::new();
    let ghost all = results@;
    for res in it: results.into_iter()
        invariant
            it.seq() == all,
            inv.wf(),
            inv@ == joined_map(all.take(it.index() as int)),
            forall|j: int| 0 <= j < it.index() ==> #[trigger] all[j] is Ok,
    {
        let ghost k = it.index() as int;
        proof {
            assert(all.take(k + 1).drop_last() == all.take(k));
        }
        match res {
            Ok((cluster, images)) => {
                inv.insert(cluster, images);
            },
            Err(e) => {
                assert(all[k] is Err);
                return Err(e);
            },
        }
    }
    proof {
        assert(all.take(all.len() as int) == all);
        assert(!has_failure(all));
    }
    Ok(inv)
}

/// The cluster that a successful scan result is for.
pub open spec fn cluster_of<E>(r: Result<(String, Vec<Image>), E>) -> Seq<char> {
    r->Ok_0.0@
}

/// The images that a successful scan result holds.
pub open spec fn images_of<E>(r: Result<(String, Vec<Image>), E>) -> Seq<Image> {
    r->Ok_0.1@
}

/// No two results are for the same cluster.
pub open spec fn distinct_clusters<E>(results: Seq<Result<(String, Vec<Image>), E>>) -> bool {
    forall|i: int, j: int|
        0 <= i < results.len() && 0 <= j < results.len() && i != j ==> cluster_of(#[trigger] results[i])
            != cluster_of(#[trigger] results[j])
}

proof fn lemma_joined_map_holds_each<E>(results: Seq<Result<(String, Vec<Image>), E>>)
    requires
        !has_failure(results),
        distinct_clusters(results),
    ensures
        forall|i: int| 0 <= i < results.len() ==> joined_map(results).contains_key(cluster_of(#[trigger] results[i]))
            && joined_map(results)[cluster_of(results[i])] == images_of(results[i]),
        forall|k: Seq<char>| #[trigger] joined_map(results).contains_key(k) ==> exists|i: int|
            0 <= i < results.len() && cluster_of(#[trigger] results[i]) == k,
    decreases results.len(),
{
    if results.len() > 0 {
        let rest = results.drop_last();
        let n = results.len() - 1;
        assert forall|i: int| 0 <= i < rest.len() implies #[trigger] rest[i] == results[i] by {}
        assert(!has_failure(rest)) by {
            if has_failure(rest) {
                let i = choose|i: int| 0 <= i < rest.len() && #[trigger] rest[i] is Err;
                assert(results[i] is Err);
            }
        }
        assert(distinct_clusters(rest)) by {
            assert forall|i: int, j: int| 0 <= i < rest.len() && 0 <= j < rest.len() && i != j implies cluster_of(
                #[trigger] rest[i],
            ) != cluster_of(#[trigger] rest[j]) by {
                assert(rest[i] == results[i] && rest[j] == results[j]);
            }
        }
        lemma_joined_map_holds_each(rest);
        assert(results[n] is Ok);
        let m = joined_map(results);
        assert(m == joined_map(rest).insert(cluster_of(results[n]), images_of(results[n])));
        assert forall|i: int| 0 <= i < results.len() implies m.contains_key(cluster_of(#[trigger] results[i]))
            && m[cluster_of(results[i])] == images_of(results[i]) by {
            if i < n {
                assert(rest[i] == results[i]);
                assert(cluster_of(results[i]) != cluster_of(results[n]));
            }
        }
        assert forall|k: Seq<char>| #[trigger] m.contains_key(k) implies exists|i: int|
            0 <= i < results.len() && cluster_of(#[trigger] results[i]) == k by {
            if k != cluster_of(results[n]) {
                assert(joined_map(rest).contains_key(k));
                let i = choose|i: int| 0 <= i < rest.len() && cluster_of(#[trigger] rest[i]) == k;
                assert(results[i] == rest[i]);
                assert(cluster_of(results[i]) == k);
            }
        }
    }
}

/// Discovery does not depend on the order in which the clusters' scans
/// complete: joining the same successful results, one per cluster, in any
/// order gives the same inventory.
pub proof fn lemma_join_ignores_completion_order<E>(
    a: Seq<Result<(String, Vec<Image>), E>>,
    b: Seq<Result<(String, Vec<Image>), E>>,
)
    requires
        !has_failure(a),
        distinct_clusters(a),
        distinct_clusters(b),
        a.to_multiset() == b.to_multiset(),
    ensures
        joined_map(a) == joined_map(b),
{
    a.to_multiset_ensures();
    b.to_multiset_ensures();
    assert forall|i: int| 0 <= i < b.len() implies exists|j: int| 0 <= j < a.len() && a[j] == #[trigger] b[i] by {
        assert(b.contains(b[i]));
        assert(a.to_multiset().count(b[i]) > 0);
        assert(a.contains(b[i]));
    }
    assert(!has_failure(b)) by {
        if has_failure(b) {
            let i = choose|i: int| 0 <= i < b.len() && #[trigger] b[i] is Err;
            let j = choose|j: int| 0 <= j < a.len() && a[j] == b[i];
            assert(a[j] is Err);
        }
    }
    lemma_joined_map_holds_each(a);
    lemma_joined_map_holds_each(b);
    let ma = joined_map(a);
    let mb = joined_map(b);
    assert forall|k: Seq<char>| ma.contains_key(k) implies mb.contains_key(k) && ma[k] == mb[k] by {
        let i = choose|i: int| 0 <= i < a.len() && cluster_of(#[trigger] a[i]) == k;
        assert(a.contains(a[i]));
        assert(b.to_multiset().count(a[i]) > 0);
        assert(b.contains(a[i]));
        let j = choose|j: int| 0 <= j < b.len() && b[j] == a[i];
        assert(cluster_of(b[j]) == k);
    }
    assert forall|k: Seq<char>| mb.contains_key(k) implies ma.contains_key(k) by {
        let i = choose|i: int| 0 <= i < b.len() && cluster_of(#[trigger] b[i]) == k;
        let j = choose|j: int| 0 <= j < a.len() && a[j] == b[i];
        assert(cluster_of(a[j]) == k);
    }
    assert(ma =~= mb);
}

} // verus!
