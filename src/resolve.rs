//! From task definitions and described services to images.
use vstd::prelude::*;

use crate::model::{ContainerDefinition, Image, Service, TaskDefinition};

verus! {

/// The container definition that the image is read from: the last one.
pub open spec fn last_container(td: TaskDefinition) -> Option<ContainerDefinition> {
    match td.container_definitions {
        Some(cds) => if cds@.len() > 0 {
            Some(cds@.last())
        } else {
            None
        },
        None => None,
    }
}

/// A task definition yields an image when it has an ARN and its last
/// container definition names an image.
pub open spec fn yields_image(td: Option<TaskDefinition>) -> bool {
    match td {
        Some(t) => t.task_definition_arn is Some && last_container(t) is Some
            && last_container(t)->0.image is Some,
        None => false,
    }
}

/// The image that a task definition yields for a service.
pub open spec fn image_of(td: Option<TaskDefinition>, service_name: Seq<char>, img: Image) -> bool {
    &&& yields_image(td)
    &&& img.image_name@ == last_container(td->0)->0.image->0@
    &&& img.task_definition_name@ == td->0.task_definition_arn->0@
    &&& img.service_name@ == service_name
}

/// The image of a described task definition, for the service that runs it:
/// the image of its last container definition, under the ARN that the
/// describe call resolved. Absent data gives `None`, which is no failure.
pub fn get_image_of_task_definition(
    task_definition: Option<TaskDefinition>,
    service_name: String,
) -> (r: Option<Image>)
    ensures
        r is Some <==> yields_image(task_definition),
        r is Some ==> image_of(task_definition, service_name@, r->0),
{
    let td = match task_definition {
        Some(td) => td,
        None => return None,
    };
    let arn = match td.task_definition_arn {
        Some(arn) => arn,
        None => return None,
    };
    let cds = match td.container_definitions {
        Some(cds) => cds,
        None => return None,
    };
    if cds.len() == 0 {
        return None;
    }
    let last = &cds[cds.len() - 1];
    match &last.image {
        Some(image) => Some(
            Image { image_name: image.clone(), task_definition_name: arn, service_name },
        ),
        None => None,
    }
}

/// The (task definition, service name) pairs of described services, in
/// order, leaving out each service that lacks either field.
pub open spec fn pairs_of(services: Seq<Service>) -> Seq<(Seq<char>, Seq<char>)>
    decreases services.len(),
{
    if services.len() == 0 {
        seq![]
    } else {
        let rest = pairs_of(services.drop_last());
        let s = services.last();
        if s.task_definition is Some && s.service_name is Some {
            rest.push((s.task_definition->0@, s.service_name->0@))
        } else {
            rest
        }
    }
}

pub open spec fn pair_view(p: (String, String)) -> (Seq<char>, Seq<char>) {
    (p.0@, p.1@)
}

/// The lookups that a batch of described services asks for: one task
/// definition per service that names both its task definition and its name.
pub fn task_definition_pairs(services: Vec<Service>) -> (r: Vec<(String, String)>)
    ensures
        r@.map_values(|p: (String, String)| pair_view(p)) == pairs_of(services@),
{
    let mut r: Vec<(String, String)> = Vec::new();
    let ghost all = services@;
    for s in it: services.into_iter()
        invariant
            it.seq() == all,
            r@.map_values(|p: (String, String)| pair_view(p)) == pairs_of(all.take(it.index() as int)),
    {
        proof {
            assert(all.take(it.index() + 1).drop_last() == all.take(it.index() as int));
        }
        match (s.task_definition, s.service_name) {
            (Some(td), Some(sn)) => {
                r.push((td, sn));
            },
            _ => {},
        }
        assert(r@.map_values(|p: (String, String)| pair_view(p)) =~= pairs_of(all.take(it.index() + 1)));
    }
    assert(all.take(all.len() as int) == all);
    r
}

/// Whether a joined set of lookups holds a failure.
pub open spec fn has_failure<T, E>(results: Seq<Result<T, E>>) -> bool {
    exists|i: int| 0 <= i < results.len() && #[trigger] results[i] is Err
}

/// `e` is the first failure among joined lookups.
pub open spec fn is_first_failure<T, E>(results: Seq<Result<T, E>>, e: E) -> bool {
    exists|i: int|
        0 <= i < results.len() && #[trigger] results[i] == Err::<T, E>(e) && forall|j: int|
            0 <= j < i ==> #[trigger] results[j] is Ok
}

/// The images found by joined task-definition lookups, in order.
pub open spec fn found_images<E>(results: Seq<Result<Option<Image>, E>>) -> Seq<Image>
    decreases results.len(),
{
    if results.len() == 0 {
        seq![]
    } else {
        let rest = found_images(results.drop_last());
        match results.last() {
            Ok(Some(img)) => rest.push(img),
            _ => rest,
        }
    }
}

/// Joins the lookups of one batch: the batch fails as a whole, with its first
/// failure, if any lookup failed; else it gives the images found, dropping
/// the lookups that found none.
pub fn collect_batch<E>(results: Vec<Result<Option<Image>, E>>) -> (r: Result<Vec<Image>, E>)
    ensures
        r is Err <==> has_failure(results@),
        r is Err ==> is_first_failure(results@, r->Err_0),
        r is Ok ==> r->Ok_0@ == found_images(results@),
{
    let mut images: Vec<Image> = Vec::new();
    let ghost all = results@;
    for res in it: results.into_iter()
        invariant
            it.seq() == all,
            images@ == found_images(all.take(it.index() as int)),
            forall|j: int| 0 <= j < it.index() ==> #[trigger] all[j] is Ok,
    {
        let ghost k = it.index() as int;
        proof {
            assert(all.take(k + 1).drop_last() == all.take(k));
        }
        match res {
            Ok(Some(img)) => {
                images.push(img);
            },
            Ok(None) => {},
            Err(e) => {
                assert(all[k] is Err);
                return Err(e);
            },
        }
    }
    proof {
        assert(all.take(all.len() as int) == all);
        assert(!has_failure(all));
    }
    Ok(images)
}

proof fn lemma_found_images_count<E>(results: Seq<Result<Option<Image>, E>>, img: Image)
    ensures
        found_images(results).to_multiset().count(img) == results.to_multiset().count(
            Ok::<Option<Image>, E>(Some(img)),
        ),
    decreases results.len(),
{
    let target = Ok::<Option<Image>, E>(Some(img));
    if results.len() == 0 {
        results.to_multiset_ensures();
        found_images(results).to_multiset_ensures();
        assert(results.to_multiset().count(target) == 0);
        assert(found_images(results).to_multiset().count(img) == 0);
    } else {
        let rest = results.drop_last();
        let last = results.last();
        lemma_found_images_count(rest, img);
        assert(results == rest.push(last));
        rest.to_multiset_ensures();
        found_images(rest).to_multiset_ensures();
        assert(results.to_multiset() == rest.to_multiset().insert(last));
        match last {
            Ok(Some(found)) => {
                assert(found_images(results) == found_images(rest).push(found));
            },
            _ => {
                assert(found_images(results) == found_images(rest));
                assert(last != target);
            },
        }
    }
}

/// The images that a batch finds do not depend on the order in which its
/// lookups complete: the same lookup results in any order find the same
/// images, each as many times.
pub proof fn lemma_batch_ignores_completion_order<E>(
    a: Seq<Result<Option<Image>, E>>,
    b: Seq<Result<Option<Image>, E>>,
)
    requires
        a.to_multiset() == b.to_multiset(),
    ensures
        found_images(a).to_multiset() == found_images(b).to_multiset(),
{
    assert forall|img: Image| found_images(a).to_multiset().count(img) == found_images(b).to_multiset().count(img) by {
        lemma_found_images_count(a, img);
        lemma_found_images_count(b, img);
    }
    assert(found_images(a).to_multiset() =~= found_images(b).to_multiset());
}

} // verus!
