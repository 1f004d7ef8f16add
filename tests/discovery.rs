use ecs_images::filter::{cluster_included, contains_str, select_clusters};
use ecs_images::inventory::{build_inventory, Inventory};
use ecs_images::model::{ContainerDefinition, Image, Service, TaskDefinition};
use ecs_images::paginate::{page_items, services_to_resolve, Paginator};
use ecs_images::resolve::{collect_batch, get_image_of_task_definition, task_definition_pairs};

fn s(x: &str) -> String {
    x.to_string()
}

fn container(image: Option<&str>) -> ContainerDefinition {
    ContainerDefinition { image: image.map(s) }
}

fn task_def(arn: Option<&str>, containers: Option<Vec<ContainerDefinition>>) -> TaskDefinition {
    TaskDefinition { task_definition_arn: arn.map(s), container_definitions: containers }
}

fn image(name: &str, td: &str, svc: &str) -> Image {
    Image { image_name: s(name), task_definition_name: s(td), service_name: s(svc) }
}

fn service(name: Option<&str>, td: Option<&str>) -> Service {
    Service { service_name: name.map(s), task_definition: td.map(s) }
}

#[test]
fn no_task_definition_gives_none() {
    assert_eq!(get_image_of_task_definition(None, s("svc")), None);
}

#[test]
fn missing_arn_gives_none() {
    let td = task_def(None, Some(vec![container(Some("app:1"))]));
    assert_eq!(get_image_of_task_definition(Some(td), s("svc")), None);
}

#[test]
fn missing_container_list_gives_none() {
    let td = task_def(Some("arn:td/1"), None);
    assert_eq!(get_image_of_task_definition(Some(td), s("svc")), None);
}

#[test]
fn empty_container_list_gives_none() {
    let td = task_def(Some("arn:td/1"), Some(vec![]));
    assert_eq!(get_image_of_task_definition(Some(td), s("svc")), None);
}

#[test]
fn last_container_without_image_gives_none() {
    let td = task_def(Some("arn:td/1"), Some(vec![container(Some("sidecar:3")), container(None)]));
    assert_eq!(get_image_of_task_definition(Some(td), s("svc")), None);
}

#[test]
fn image_of_single_container() {
    let td = task_def(Some("arn:td/web:4"), Some(vec![container(Some("app:1.2"))]));
    assert_eq!(
        get_image_of_task_definition(Some(td), s("web")),
        Some(image("app:1.2", "arn:td/web:4", "web"))
    );
}

#[test]
fn image_is_read_from_the_last_container() {
    let td = task_def(
        Some("arn:td/web:4"),
        Some(vec![container(Some("sidecar:3")), container(None), container(Some("main:9"))]),
    );
    assert_eq!(
        get_image_of_task_definition(Some(td), s("web")),
        Some(image("main:9", "arn:td/web:4", "web"))
    );
}

#[test]
fn empty_image_field_still_counts() {
    let td = task_def(Some("arn:td/x"), Some(vec![container(Some(""))]));
    assert_eq!(get_image_of_task_definition(Some(td), s("x")), Some(image("", "arn:td/x", "x")));
}

#[test]
fn pairs_skip_services_missing_a_field() {
    let services = vec![
        service(Some("a"), Some("td-a")),
        service(None, Some("td-b")),
        service(Some("c"), None),
        service(Some("d"), Some("td-d")),
    ];
    assert_eq!(
        task_definition_pairs(services),
        vec![(s("td-a"), s("a")), (s("td-d"), s("d"))]
    );
}

#[test]
fn batch_drops_lookups_that_found_nothing() {
    let results: Vec<Result<Option<Image>, String>> = vec![
        Ok(Some(image("a:1", "td-a", "a"))),
        Ok(None),
        Ok(Some(image("b:2", "td-b", "b"))),
    ];
    assert_eq!(
        collect_batch(results),
        Ok(vec![image("a:1", "td-a", "a"), image("b:2", "td-b", "b")])
    );
}

#[test]
fn batch_fails_when_one_lookup_fails() {
    let results: Vec<Result<Option<Image>, String>> = vec![
        Ok(Some(image("a:1", "td-a", "a"))),
        Err(s("throttled")),
        Ok(Some(image("b:2", "td-b", "b"))),
        Err(s("access denied")),
    ];
    assert_eq!(collect_batch(results), Err(s("throttled")));
}

#[test]
fn batch_failure_is_the_same_on_every_run() {
    for _ in 0..3 {
        let results: Vec<Result<Option<Image>, String>> =
            vec![Ok(None), Ok(Some(image("a:1", "td-a", "a"))), Err(s("timeout"))];
        assert_eq!(collect_batch(results), Err(s("timeout")));
    }
}

#[test]
fn empty_batch_is_empty() {
    let results: Vec<Result<Option<Image>, String>> = vec![];
    assert_eq!(collect_batch(results), Ok(vec![]));
}

#[test]
fn pagination_follows_the_cursor_chain() {
    let mut pager: Paginator<String> = Paginator::new();
    assert_eq!(pager.next_request(), Some(None));
    pager.receive(vec![s("c1"), s("c2")], Some(s("t1")));
    assert_eq!(pager.next_request(), Some(Some(s("t1"))));
    assert!(!pager.is_done());
    pager.receive(vec![], Some(s("t2")));
    assert_eq!(pager.next_request(), Some(Some(s("t2"))));
    pager.receive(vec![s("c3")], None);
    assert_eq!(pager.next_request(), None);
    assert!(pager.is_done());
    assert_eq!(pager.into_items(), vec![s("c1"), s("c2"), s("c3")]);
}

#[test]
fn single_page_listing() {
    let mut pager: Paginator<u32> = Paginator::new();
    pager.receive(vec![7, 8], None);
    assert!(pager.is_done());
    assert_eq!(pager.into_items(), vec![7, 8]);
}

#[test]
fn absent_page_is_empty() {
    assert_eq!(page_items::<String>(None), Vec::<String>::new());
    assert_eq!(page_items(Some(vec![s("x")])), vec![s("x")]);
}

#[test]
fn only_non_empty_pages_are_resolved() {
    assert_eq!(services_to_resolve(None), None);
    assert_eq!(services_to_resolve(Some(vec![])), None);
    assert_eq!(services_to_resolve(Some(vec![s("svc")])), Some(vec![s("svc")]));
}

#[test]
fn substring_search() {
    assert!(contains_str("arn:cluster/prod-a", "prod"));
    assert!(contains_str("arn:cluster/prod-a", "prod-a"));
    assert!(contains_str("prod", "prod"));
    assert!(contains_str("abc", ""));
    assert!(!contains_str("arn:cluster/dev-b", "prod"));
    assert!(!contains_str("arn:cluster/Prod-a", "prod"));
    assert!(!contains_str("pro", "prod"));
}

#[test]
fn no_filter_keeps_every_cluster() {
    let clusters = vec![s("arn:cluster/prod-a"), s("arn:cluster/dev-b")];
    assert!(cluster_included(&vec![], &s("anything")));
    assert_eq!(select_clusters(clusters.clone(), &vec![]), clusters);
}

#[test]
fn filter_keeps_clusters_containing_it() {
    let clusters = vec![
        s("arn:cluster/prod-a"),
        s("arn:cluster/dev-b"),
        s("arn:cluster/preprod-c"),
        s("arn:cluster/PROD-d"),
    ];
    assert_eq!(
        select_clusters(clusters, &vec![s("prod")]),
        vec![s("arn:cluster/prod-a"), s("arn:cluster/preprod-c")]
    );
}

#[test]
fn any_of_several_filters_keeps_a_cluster() {
    let filters = vec![s("dev"), s("stage")];
    assert!(cluster_included(&filters, &s("arn:cluster/stage-1")));
    assert!(cluster_included(&filters, &s("arn:cluster/dev-b")));
    assert!(!cluster_included(&filters, &s("arn:cluster/prod-a")));
}

#[test]
fn inventory_records_and_replaces() {
    let mut inv = Inventory::new();
    assert_eq!(inv.len(), 0);
    inv.insert(s("a"), vec![image("x:1", "td-x", "x")]);
    inv.insert(s("b"), vec![]);
    assert_eq!(inv.len(), 2);
    inv.insert(s("a"), vec![image("y:2", "td-y", "y")]);
    assert_eq!(inv.len(), 2);
    assert_eq!(inv.get(&s("a")), Some(&vec![image("y:2", "td-y", "y")]));
    assert_eq!(inv.get(&s("b")), Some(&vec![]));
    assert_eq!(inv.get(&s("c")), None);
}

#[test]
fn join_keeps_clusters_without_images() {
    let results: Vec<Result<(String, Vec<Image>), String>> =
        vec![Ok((s("a"), vec![])), Ok((s("b"), vec![image("x:1", "td-x", "x")]))];
    let inv = build_inventory(results).unwrap();
    assert_eq!(inv.len(), 2);
    assert_eq!(inv.get(&s("a")), Some(&vec![]));
}

#[test]
fn join_fails_with_the_first_failure() {
    let results: Vec<Result<(String, Vec<Image>), String>> =
        vec![Ok((s("a"), vec![])), Err(s("first")), Err(s("second"))];
    assert_eq!(build_inventory(results).err(), Some(s("first")));
}

#[test]
fn join_does_not_depend_on_completion_order() {
    let one: Vec<Result<(String, Vec<Image>), String>> = vec![
        Ok((s("a"), vec![image("x:1", "td-x", "x")])),
        Ok((s("b"), vec![image("y:2", "td-y", "y")])),
    ];
    let other: Vec<Result<(String, Vec<Image>), String>> = vec![
        Ok((s("b"), vec![image("y:2", "td-y", "y")])),
        Ok((s("a"), vec![image("x:1", "td-x", "x")])),
    ];
    let first = build_inventory(one).unwrap();
    let second = build_inventory(other).unwrap();
    for c in [s("a"), s("b"), s("c")] {
        assert_eq!(first.get(&c), second.get(&c));
    }
    assert_eq!(first.len(), second.len());
}

#[test]
fn discovery_of_a_prod_cluster() {
    // The clusters come in two pages.
    let mut clusters: Paginator<String> = Paginator::new();
    clusters.receive(page_items(Some(vec![s("arn:cluster/prod-a")])), Some(s("next")));
    clusters.receive(page_items(Some(vec![s("arn:cluster/dev-b")])), None);
    let kept = select_clusters(clusters.into_items(), &vec![s("prod")]);
    assert_eq!(kept, vec![s("arn:cluster/prod-a")]);

    let mut scans: Vec<Result<(String, Vec<Image>), String>> = Vec::new();
    for cluster in kept {
        let mut pager: Paginator<Image> = Paginator::new();
        let page = services_to_resolve(Some(vec![s("svc1")])).unwrap();
        assert_eq!(page, vec![s("svc1")]);
        let described = vec![service(Some("svc1"), Some("td1"))];
        let lookups: Vec<Result<Option<Image>, String>> = task_definition_pairs(described)
            .into_iter()
            .map(|(td, sn)| {
                assert_eq!(td, s("td1"));
                let body = task_def(
                    Some("arn:task-definition/td1:1"),
                    Some(vec![container(Some("app:1.2"))]),
                );
                Ok(get_image_of_task_definition(Some(body), sn))
            })
            .collect();
        pager.receive(collect_batch(lookups).unwrap(), None);
        scans.push(Ok((cluster, pager.into_items())));
    }
    let inv = build_inventory(scans).unwrap();
    assert_eq!(inv.len(), 1);
    assert_eq!(
        inv.get(&s("arn:cluster/prod-a")),
        Some(&vec![image("app:1.2", "arn:task-definition/td1:1", "svc1")])
    );
    assert_eq!(inv.get(&s("arn:cluster/dev-b")), None);
}
