use zudb_js::plan::{planned, profiled, OpProfile, PlanNode, Profile, QueryPlan, ScalarPlan, StageProfile};
use zudb_js::value::Made;

fn node(op: &str, bracket: Option<&str>, children: Vec<PlanNode>) -> PlanNode {
    PlanNode {
        op: op.to_string(),
        name: format!("{}{op}", bracket.unwrap_or("")),
        bracket: bracket.map(str::to_string),
        detail: "d".to_string(),
        binds: vec!["p".to_string()],
        tables: vec!["person".to_string()],
        children,
    }
}

fn plan(root: Option<PlanNode>, scalars: Vec<ScalarPlan>) -> QueryPlan {
    QueryPlan {
        root,
        columns: vec!["id".to_string()],
        params: vec!["name".to_string()],
        notes: vec![],
        scalars,
        text: "Project".to_string(),
    }
}

fn get<'a>(made: &'a Made, key: &str) -> &'a Made {
    match made {
        Made::Object(fields) => &fields.iter().find(|f| f.0 == key).expect("a property").1,
        _ => panic!("not an object"),
    }
}

fn items(made: &Made) -> &Vec<Made> {
    match made {
        Made::List(list) => list,
        _ => panic!("not a list"),
    }
}

fn is(made: &Made, words: &str) -> bool {
    matches!(made, Made::Text(t) if t == words)
}

#[test]
fn a_plan_is_a_tree_and_a_listing() {
    let tree = node("Project", None, vec![node("Expand", Some("Optional"), vec![])]);
    let inner = ScalarPlan { reads: vec!["q".to_string()], exists: true, plan: plan(None, vec![]) };
    let made = planned(&plan(Some(tree), vec![inner]));
    let root = get(&made, "root");
    assert!(is(get(root, "op"), "Project") && matches!(get(root, "bracket"), Made::Null));
    let child = &items(get(root, "children"))[0];
    assert!(is(get(child, "op"), "Expand") && is(get(child, "name"), "OptionalExpand") && is(get(child, "bracket"), "Optional"));
    assert!(is(&items(get(child, "tables"))[0], "person") && items(get(child, "children")).is_empty());
    assert!(is(&items(get(&made, "columns"))[0], "id") && is(&items(get(&made, "params"))[0], "name"));
    let scalar = &items(get(&made, "scalars"))[0];
    assert!(matches!(get(scalar, "exists"), Made::Boolean(true)));
    assert!(matches!(get(get(scalar, "plan"), "root"), Made::Null));
    assert!(is(get(&made, "text"), "Project"));
}

fn stage(nanos: u64) -> StageProfile {
    let op = OpProfile {
        kind: "Scan".to_string(),
        detail: "p".to_string(),
        pulls: 3,
        rows: 40,
        flat: 80,
        est: Some(20f64.to_bits()),
        bnd: None,
        nanos: 7,
        qerror: Some(2f64.to_bits()),
    };
    StageProfile { ops: vec![op], sink: "Rows".to_string(), out_rows: 40, nanos }
}

#[test]
fn a_profile_adds_up_its_stages() {
    let made = profiled(&Profile { stages: vec![stage(5), stage(6)], text: "listing".to_string() }).expect("it adds up");
    assert!(matches!(get(&made, "nanos"), Made::Count(11)));
    let first = &items(get(&made, "stages"))[0];
    assert!(is(get(first, "sink"), "Rows") && matches!(get(first, "rows"), Made::Count(40)));
    let op = &items(get(first, "ops"))[0];
    assert!(is(get(op, "op"), "Scan") && matches!(get(op, "pulls"), Made::Count(3)) && matches!(get(op, "flat"), Made::Count(80)));
    assert!(matches!(get(op, "estimate"), Made::Double(b) if f64::from_bits(*b) == 20.0));
    assert!(matches!(get(op, "bound"), Made::Null));
    assert!(matches!(get(op, "qerror"), Made::Double(b) if f64::from_bits(*b) == 2.0));
}

#[test]
fn a_profile_that_does_not_add_up_is_nothing() {
    assert!(profiled(&Profile { stages: vec![stage(u64::MAX), stage(1)], text: String::new() }).is_none());
    assert!(profiled(&Profile { stages: vec![stage(u64::MAX)], text: String::new() }).is_some());
}
