//! What a statement would do, and what it did.
//!
//! `explain` compiles and stops, and answers the operators the statement would have run.
//! `profile` runs it with the counters on and answers the same operators with what each of them
//! really did. Both answer a tree and a listing, and the listing is the engine's own rendering
//! of the same tree rather than something assembled here, which is what keeps the two from
//! drifting.
//!
//! Counts are numbers rather than bigints: nothing a profile counts comes near 2^53.

use vstd::prelude::*;

use crate::value::{
    elements, law_strings_are_listed_in_order, listing, object, properties, property, shows, strings, texts, Made, Shown,
};

verus! {

/// One operator of a plan and everything under it.
pub struct PlanNode {
    /// The operator.
    pub op: String,
    /// What the listing calls it, which differs only where the operator sits inside a bracket.
    pub name: String,
    /// The bracket it sits inside, when it does.
    pub bracket: Option<String>,
    pub detail: String,
    pub binds: Vec<String>,
    pub tables: Vec<String>,
    pub children: Vec<PlanNode>,
}

/// A query written where a value belongs, and the variables of the query around it that its
/// plan reads.
pub struct ScalarPlan {
    pub reads: Vec<String>,
    pub exists: bool,
    pub plan: QueryPlan,
}

/// A whole plan.
pub struct QueryPlan {
    pub root: Option<PlanNode>,
    pub columns: Vec<String>,
    pub params: Vec<String>,
    pub notes: Vec<String>,
    pub scalars: Vec<ScalarPlan>,
    /// The engine's own listing of it.
    pub text: String,
}

/// Whether this is an operator and everything under it, as the object a caller reads.
pub open spec fn is_operator(made: Made, node: PlanNode) -> bool
    decreases node,
{
    &&& made matches Made::Object(fields)
    &&& fields@.len() == 7
    &&& properties(fields@.take(6), operator_fields(node))
    &&& fields@[6].0@ == "children"@
    &&& fields@[6].1 matches Made::List(children)
    &&& children@.len() == node.children@.len()
    &&& forall|i: int| 0 <= i < node.children@.len() ==> is_operator(#[trigger] children@[i], node.children@[i])
}

/// What an operator says of itself, before its children.
pub open spec fn operator_fields(node: PlanNode) -> Seq<(Seq<char>, Shown)> {
    Seq::empty().push(("op"@, Shown::Text(node.op@))).push(("name"@, Shown::Text(node.name@))).push(
        (
            "bracket"@,
            match node.bracket {
                Some(bracket) => Shown::Text(bracket@),
                None => Shown::Null,
            },
        ),
    ).push(("detail"@, Shown::Text(node.detail@))).push(("binds"@, texts(node.binds@))).push(
        ("tables"@, texts(node.tables@)),
    )
}

/// One operator and everything under it.
///
/// A program grouping by operator wants `op` and a program printing wants `name`, so both are
/// here and neither has to be derived.
pub fn operator(node: &PlanNode) -> (r: Made)
    ensures
        is_operator(r, *node),
    decreases node,
{
    let mut fields: Vec<(String, Made)> = Vec::new();
    property(&mut fields, "op", Made::Text(node.op.clone()));
    property(&mut fields, "name", Made::Text(node.name.clone()));
    let bracket: Made = match &node.bracket {
        Some(bracket) => Made::Text(bracket.clone()),
        None => Made::Null,
    };
    property(&mut fields, "bracket", bracket);
    property(&mut fields, "detail", Made::Text(node.detail.clone()));
    property(&mut fields, "binds", strings(&node.binds));
    property(&mut fields, "tables", strings(&node.tables));
    proof {
        assert(shows(bracket, operator_fields(*node)[2].1));
        assert(properties(fields@, operator_fields(*node)));
    }
    let ghost said = fields@;
    fields.push(("children".to_owned(), Made::List(operators(&node.children))));
    proof {
        assert(fields@.take(6) =~= said);
    }
    Made::Object(fields)
}

fn operators(nodes: &Vec<PlanNode>) -> (r: Vec<Made>)
    ensures
        r@.len() == nodes@.len(),
        forall|i: int| 0 <= i < nodes@.len() ==> is_operator(#[trigger] r@[i], nodes@[i]),
    decreases nodes,
{
    let mut made: Vec<Made> = Vec::new();
    let mut at: usize = 0;
    while at < nodes.len()
        invariant
            at <= nodes@.len(),
            made@.len() == at,
            forall|i: int| 0 <= i < at ==> is_operator(#[trigger] made@[i], nodes@[i]),
        decreases nodes@.len() - at,
    {
        proof {
            assert(decreases_to!(nodes => nodes@[at as int]));
        }
        made.push(operator(&nodes[at]));
        at += 1;
    }
    made
}

/// Whether this is a whole plan, as the object a caller reads.
pub open spec fn is_plan(made: Made, plan: QueryPlan) -> bool
    decreases plan,
{
    &&& made matches Made::Object(fields)
    &&& fields@.len() == 6
    &&& fields@[0].0@ == "root"@
    &&& match plan.root {
        Some(root) => is_operator(fields@[0].1, root),
        None => fields@[0].1 == Made::Null,
    }
    &&& fields@[1].0@ == "columns"@ && shows(fields@[1].1, texts(plan.columns@))
    &&& fields@[2].0@ == "params"@ && shows(fields@[2].1, texts(plan.params@))
    &&& fields@[3].0@ == "notes"@ && shows(fields@[3].1, texts(plan.notes@))
    &&& fields@[4].0@ == "scalars"@
    &&& fields@[4].1 matches Made::List(scalars)
    &&& scalars@.len() == plan.scalars@.len()
    &&& forall|i: int| 0 <= i < plan.scalars@.len() ==> is_scalar(#[trigger] scalars@[i], plan.scalars@[i])
    &&& fields@[5].0@ == "text"@ && shows(fields@[5].1, Shown::Text(plan.text@))
}

/// Whether this is a query written where a value belongs, as the object a caller reads.
pub open spec fn is_scalar(made: Made, scalar: ScalarPlan) -> bool
    decreases scalar,
{
    &&& made matches Made::Object(fields)
    &&& fields@.len() == 3
    &&& fields@[0].0@ == "reads"@ && shows(fields@[0].1, texts(scalar.reads@))
    &&& fields@[1].0@ == "exists"@ && fields@[1].1 == Made::Boolean(scalar.exists)
    &&& fields@[2].0@ == "plan"@ && is_plan(fields@[2].1, scalar.plan)
}

/// A whole plan as the object a caller reads.
pub fn planned(plan: &QueryPlan) -> (r: Made)
    ensures
        is_plan(r, *plan),
    decreases plan,
{
    let mut fields: Vec<(String, Made)> = Vec::new();
    let root: Made = match &plan.root {
        Some(root) => operator(root),
        None => Made::Null,
    };
    fields.push(("root".to_owned(), root));
    fields.push(("columns".to_owned(), strings(&plan.columns)));
    fields.push(("params".to_owned(), strings(&plan.params)));
    fields.push(("notes".to_owned(), strings(&plan.notes)));
    fields.push(("scalars".to_owned(), Made::List(scalars(&plan.scalars))));
    fields.push(("text".to_owned(), Made::Text(plan.text.clone())));
    Made::Object(fields)
}

fn scalars(held: &Vec<ScalarPlan>) -> (r: Vec<Made>)
    ensures
        r@.len() == held@.len(),
        forall|i: int| 0 <= i < held@.len() ==> is_scalar(#[trigger] r@[i], held@[i]),
    decreases held,
{
    let mut made: Vec<Made> = Vec::new();
    let mut at: usize = 0;
    while at < held.len()
        invariant
            at <= held@.len(),
            made@.len() == at,
            forall|i: int| 0 <= i < at ==> is_scalar(#[trigger] made@[i], held@[i]),
        decreases held@.len() - at,
    {
        proof {
            assert(decreases_to!(held => held@[at as int]));
            assert(decreases_to!(held@[at as int] => held@[at as int].plan));
        }
        let scalar: &ScalarPlan = &held[at];
        let mut fields: Vec<(String, Made)> = Vec::new();
        fields.push(("reads".to_owned(), strings(&scalar.reads)));
        fields.push(("exists".to_owned(), Made::Boolean(scalar.exists)));
        fields.push(("plan".to_owned(), planned(&scalar.plan)));
        made.push(Made::Object(fields));
        at += 1;
    }
    made
}

/// What the counters saw of one operator.
pub struct OpProfile {
    pub kind: String,
    pub detail: String,
    /// How many times the operator above asked.
    pub pulls: u64,
    /// How many rows it answered.
    pub rows: u64,
    /// The same count with the factorization multiplied out.
    pub flat: u64,
    /// What the optimizer expected, by the bits of the double it is.
    pub est: Option<u64>,
    /// The upper bound the optimizer had, by the bits of the double it is.
    pub bnd: Option<u64>,
    pub nanos: u64,
    /// The ratio of the two counts, by the bits of the double it is.
    pub qerror: Option<u64>,
}

/// One stage: the operators bottom-up and the sink that took their rows.
pub struct StageProfile {
    pub ops: Vec<OpProfile>,
    pub sink: String,
    pub out_rows: u64,
    pub nanos: u64,
}

/// A whole profile.
pub struct Profile {
    pub stages: Vec<StageProfile>,
    /// The engine's own listing of it.
    pub text: String,
}

/// A number or null.
pub open spec fn double_or_null(bits: Option<u64>) -> Shown {
    match bits {
        Some(bits) => Shown::Double(bits),
        None => Shown::Null,
    }
}

/// What the counters saw of one operator, as the object a caller reads.
pub open spec fn op_fields(op: OpProfile) -> Seq<(Seq<char>, Shown)> {
    Seq::empty().push(("op"@, Shown::Text(op.kind@))).push(("detail"@, Shown::Text(op.detail@))).push(
        ("pulls"@, Shown::Count(op.pulls)),
    ).push(("rows"@, Shown::Count(op.rows))).push(("flat"@, Shown::Count(op.flat))).push(
        ("estimate"@, double_or_null(op.est)),
    ).push(("bound"@, double_or_null(op.bnd))).push(("nanos"@, Shown::Count(op.nanos))).push(
        ("qerror"@, double_or_null(op.qerror)),
    )
}

fn maybe(bits: Option<u64>) -> (r: Made)
    ensures
        shows(r, double_or_null(bits)),
{
    match bits {
        Some(bits) => Made::Double(bits),
        None => Made::Null,
    }
}

/// One operator and what the counters saw of it.
pub fn counted(op: &OpProfile) -> (r: Made)
    ensures
        shows(r, Shown::Object(op_fields(*op))),
{
    let mut fields: Vec<(String, Made)> = Vec::new();
    property(&mut fields, "op", Made::Text(op.kind.clone()));
    property(&mut fields, "detail", Made::Text(op.detail.clone()));
    property(&mut fields, "pulls", Made::Count(op.pulls));
    property(&mut fields, "rows", Made::Count(op.rows));
    property(&mut fields, "flat", Made::Count(op.flat));
    property(&mut fields, "estimate", maybe(op.est));
    property(&mut fields, "bound", maybe(op.bnd));
    property(&mut fields, "nanos", Made::Count(op.nanos));
    property(&mut fields, "qerror", maybe(op.qerror));
    proof {
        assert(properties(fields@, op_fields(*op)));
    }
    object(fields)
}

/// One stage as the object a caller reads.
pub open spec fn stage_fields(stage: StageProfile) -> Seq<(Seq<char>, Shown)> {
    Seq::empty().push(("sink"@, Shown::Text(stage.sink@))).push(("rows"@, Shown::Count(stage.out_rows))).push(
        ("nanos"@, Shown::Count(stage.nanos)),
    ).push(("ops"@, Shown::List(stage.ops@.map_values(|op: OpProfile| Shown::Object(op_fields(op))))))
}

/// One stage: the operators bottom-up and the sink that took their rows.
pub fn staged(stage: &StageProfile) -> (r: Made)
    ensures
        shows(r, Shown::Object(stage_fields(*stage))),
{
    let mut ops: Vec<Made> = Vec::new();
    let mut at: usize = 0;
    while at < stage.ops.len()
        invariant
            at <= stage.ops@.len(),
            ops@.len() == at,
            forall|i: int| 0 <= i < at ==> shows(#[trigger] ops@[i], Shown::Object(op_fields(stage.ops@[i]))),
        decreases stage.ops@.len() - at,
    {
        ops.push(counted(&stage.ops[at]));
        at += 1;
    }
    proof {
        assert(elements(ops@, stage.ops@.map_values(|op: OpProfile| Shown::Object(op_fields(op)))));
    }
    let mut fields: Vec<(String, Made)> = Vec::new();
    property(&mut fields, "sink", Made::Text(stage.sink.clone()));
    property(&mut fields, "rows", Made::Count(stage.out_rows));
    property(&mut fields, "nanos", Made::Count(stage.nanos));
    property(&mut fields, "ops", listing(ops));
    proof {
        assert(properties(fields@, stage_fields(*stage)));
    }
    object(fields)
}

/// How long the first `n` stages took, end to end.
pub open spec fn end_to_end(stages: Seq<StageProfile>, n: nat) -> nat
    decreases n,
{
    if n == 0 { 0 } else { end_to_end(stages, (n - 1) as nat) + stages[n - 1].nanos as nat }
}

/// A whole profile as the object a caller reads.
pub open spec fn profile_fields(profile: Profile) -> Seq<(Seq<char>, Shown)> {
    Seq::empty().push(
        ("stages"@, Shown::List(profile.stages@.map_values(|stage: StageProfile| Shown::Object(stage_fields(stage))))),
    ).push(("nanos"@, Shown::Count(end_to_end(profile.stages@, profile.stages@.len()) as u64))).push(
        ("text"@, Shown::Text(profile.text@)),
    )
}

proof fn lemma_longer(stages: Seq<StageProfile>, k: nat, n: nat)
    requires
        k <= n,
    ensures
        end_to_end(stages, k) <= end_to_end(stages, n),
    decreases n,
{
    if k < n {
        lemma_longer(stages, k, (n - 1) as nat);
    }
}

/// A whole profile as the object a caller reads, or nothing when the stages end to end took
/// more nanoseconds than 64 bits count.
pub fn profiled(profile: &Profile) -> (r: Option<Made>)
    ensures
        match r {
            Some(made) => end_to_end(profile.stages@, profile.stages@.len()) <= u64::MAX && shows(
                made,
                Shown::Object(profile_fields(*profile)),
            ),
            None => end_to_end(profile.stages@, profile.stages@.len()) > u64::MAX,
        },
{
    let mut stages: Vec<Made> = Vec::new();
    let mut nanos: u64 = 0;
    let mut at: usize = 0;
    while at < profile.stages.len()
        invariant
            at <= profile.stages@.len(),
            stages@.len() == at,
            nanos == end_to_end(profile.stages@, at as nat),
            forall|i: int|
                0 <= i < at ==> shows(#[trigger] stages@[i], Shown::Object(stage_fields(profile.stages@[i]))),
        decreases profile.stages@.len() - at,
    {
        let stage: &StageProfile = &profile.stages[at];
        match nanos.checked_add(stage.nanos) {
            Some(sum) => nanos = sum,
            None => {
                proof {
                    lemma_longer(profile.stages@, (at + 1) as nat, profile.stages@.len());
                }
                return None;
            },
        }
        stages.push(staged(stage));
        at += 1;
    }
    proof {
        assert(elements(
            stages@,
            profile.stages@.map_values(|stage: StageProfile| Shown::Object(stage_fields(stage))),
        ));
    }
    let mut fields: Vec<(String, Made)> = Vec::new();
    property(&mut fields, "stages", listing(stages));
    property(&mut fields, "nanos", Made::Count(nanos));
    property(&mut fields, "text", Made::Text(profile.text.clone()));
    proof {
        assert(properties(fields@, profile_fields(*profile)));
    }
    Some(object(fields))
}

/// An operator is told as it is: what it is, what the listing calls it, the bracket it sits in and
/// null where it sits in none, its detail, what it binds and the tables it reads, and the
/// operators under it, one for one and in order, each told the same way.
pub proof fn law_an_operator_is_told_as_it_is(made: Made, node: PlanNode, bind: int, table: int, child: int)
    requires
        is_operator(made, node),
    ensures
        made matches Made::Object(f) && f@.len() == 7 && f@[0].0@ == "op"@ && (f@[0].1 matches Made::Text(t) && t@ == node.op@)
            && f@[1].0@ == "name"@ && (f@[1].1 matches Made::Text(t) && t@ == node.name@) && f@[2].0@ == "bracket"@
            && match node.bracket {
            Some(bracket) => f@[2].1 matches Made::Text(t) && t@ == bracket@,
            None => f@[2].1 is Null,
        } && f@[3].0@ == "detail"@ && (f@[3].1 matches Made::Text(t) && t@ == node.detail@) && f@[4].0@ == "binds"@
            && (f@[4].1 matches Made::List(binds) && binds@.len() == node.binds@.len() && (0 <= bind < binds@.len() ==> (
        binds@[bind] matches Made::Text(t) && t@ == node.binds@[bind]@))) && f@[5].0@ == "tables"@
            && (f@[5].1 matches Made::List(tables) && tables@.len() == node.tables@.len() && (0 <= table < tables@.len() ==> (
        tables@[table] matches Made::Text(t) && t@ == node.tables@[table]@))) && f@[6].0@ == "children"@
            && (f@[6].1 matches Made::List(children) && children@.len() == node.children@.len() && (0 <= child
            < children@.len() ==> is_operator(children@[child], node.children@[child]))),
{
    let f = made->Object_0;
    let said = f@.take(6);
    let shown = operator_fields(node);
    assert(said[0].0@ == shown[0].0 && shows(said[0].1, shown[0].1));
    assert(said[1].0@ == shown[1].0 && shows(said[1].1, shown[1].1));
    assert(said[2].0@ == shown[2].0 && shows(said[2].1, shown[2].1));
    assert(said[3].0@ == shown[3].0 && shows(said[3].1, shown[3].1));
    assert(said[4].0@ == shown[4].0 && shows(said[4].1, shown[4].1));
    assert(said[5].0@ == shown[5].0 && shows(said[5].1, shown[5].1));
    law_strings_are_listed_in_order(node.binds@, f@[4].1, bind);
    law_strings_are_listed_in_order(node.tables@, f@[5].1, table);
    let children = f@[6].1->List_0;
    if 0 <= child < children@.len() {
        assert(is_operator(children@[child], node.children@[child]));
    }
}

/// A plan is told as it is: its operators from the root down and null where it has none, the names of
/// its columns and its parameters, its notes, the queries inside it and the engine's own listing.
pub proof fn law_a_plan_is_told_as_it_is(made: Made, plan: QueryPlan, at: int)
    requires
        is_plan(made, plan),
    ensures
        made matches Made::Object(f) && f@.len() == 6 && f@[0].0@ == "root"@ && (plan.root is None <==> f@[0].1 is Null)
            && (plan.root matches Some(root) ==> is_operator(f@[0].1, root)) && f@[1].0@ == "columns"@
            && (f@[1].1 matches Made::List(columns) && columns@.len() == plan.columns@.len() && (0 <= at < columns@.len()
            ==> (columns@[at] matches Made::Text(t) && t@ == plan.columns@[at]@))) && f@[2].0@ == "params"@
            && (f@[2].1 matches Made::List(params) && params@.len() == plan.params@.len() && (0 <= at < params@.len() ==> (
        params@[at] matches Made::Text(t) && t@ == plan.params@[at]@))) && f@[3].0@ == "notes"@
            && (f@[3].1 matches Made::List(notes) && notes@.len() == plan.notes@.len() && (0 <= at < notes@.len() ==> (
        notes@[at] matches Made::Text(t) && t@ == plan.notes@[at]@))) && f@[4].0@ == "scalars"@
            && (f@[4].1 matches Made::List(scalars) && scalars@.len() == plan.scalars@.len() && (0 <= at < scalars@.len()
            ==> (scalars@[at] matches Made::Object(g) && g@.len() == 3 && g@[0].0@ == "reads"@ && (g@[0].1 matches Made::List(
            reads,
        ) && reads@.len() == plan.scalars@[at].reads@.len()) && g@[1].0@ == "exists"@ && g@[1].1 == Made::Boolean(
            plan.scalars@[at].exists,
        ) && g@[2].0@ == "plan"@ && is_plan(g@[2].1, plan.scalars@[at].plan)))) && f@[5].0@ == "text"@
            && (f@[5].1 matches Made::Text(t) && t@ == plan.text@),
{
    let f = made->Object_0;
    law_strings_are_listed_in_order(plan.columns@, f@[1].1, at);
    law_strings_are_listed_in_order(plan.params@, f@[2].1, at);
    law_strings_are_listed_in_order(plan.notes@, f@[3].1, at);
    let scalars = f@[4].1->List_0;
    if 0 <= at < scalars@.len() {
        assert(is_scalar(scalars@[at], plan.scalars@[at]));
        law_strings_are_listed_in_order(plan.scalars@[at].reads@, scalars@[at]->Object_0@[0].1, 0);
    }
}

/// What the counters saw of an operator is told under its own name, each count under its own and
/// each estimate as the double it is or as null.
pub proof fn law_an_operators_counts_are_its_own(made: Made, op: OpProfile)
    requires
        shows(made, Shown::Object(op_fields(op))),
    ensures
        made matches Made::Object(f) && f@.len() == 9 && f@[0].0@ == "op"@ && (f@[0].1 matches Made::Text(t) && t@ == op.kind@)
            && f@[1].0@ == "detail"@ && (f@[1].1 matches Made::Text(t) && t@ == op.detail@) && f@[2].0@ == "pulls"@
            && f@[2].1 == Made::Count(op.pulls) && f@[3].0@ == "rows"@ && f@[3].1 == Made::Count(op.rows) && f@[4].0@
            == "flat"@ && f@[4].1 == Made::Count(op.flat) && f@[5].0@ == "estimate"@ && match op.est {
            Some(bits) => f@[5].1 == Made::Double(bits),
            None => f@[5].1 is Null,
        } && f@[6].0@ == "bound"@ && match op.bnd {
            Some(bits) => f@[6].1 == Made::Double(bits),
            None => f@[6].1 is Null,
        } && f@[7].0@ == "nanos"@ && f@[7].1 == Made::Count(op.nanos) && f@[8].0@ == "qerror"@ && match op.qerror {
            Some(bits) => f@[8].1 == Made::Double(bits),
            None => f@[8].1 is Null,
        },
{
    let f = made->Object_0;
    let shown = op_fields(op);
    assert(f@.len() == shown.len());
    assert(f@[0].0@ == shown[0].0 && shows(f@[0].1, shown[0].1));
    assert(f@[1].0@ == shown[1].0 && shows(f@[1].1, shown[1].1));
    assert(f@[2].0@ == shown[2].0 && shows(f@[2].1, shown[2].1));
    assert(f@[3].0@ == shown[3].0 && shows(f@[3].1, shown[3].1));
    assert(f@[4].0@ == shown[4].0 && shows(f@[4].1, shown[4].1));
    assert(f@[5].0@ == shown[5].0 && shows(f@[5].1, shown[5].1));
    assert(f@[6].0@ == shown[6].0 && shows(f@[6].1, shown[6].1));
    assert(f@[7].0@ == shown[7].0 && shows(f@[7].1, shown[7].1));
    assert(f@[8].0@ == shown[8].0 && shows(f@[8].1, shown[8].1));
}

/// A stage is told with its sink, the rows it took, how long it was and its operators in order.
pub proof fn law_a_stage_is_told_as_it_ran(made: Made, stage: StageProfile, at: int)
    requires
        shows(made, Shown::Object(stage_fields(stage))),
    ensures
        made matches Made::Object(f) && f@.len() == 4 && f@[0].0@ == "sink"@ && (f@[0].1 matches Made::Text(t) && t@
            == stage.sink@) && f@[1].0@ == "rows"@ && f@[1].1 == Made::Count(stage.out_rows) && f@[2].0@ == "nanos"@
            && f@[2].1 == Made::Count(stage.nanos) && f@[3].0@ == "ops"@ && (f@[3].1 matches Made::List(ops) && ops@.len()
            == stage.ops@.len() && (0 <= at < ops@.len() ==> shows(ops@[at], Shown::Object(op_fields(stage.ops@[at]))))),
{
    let f = made->Object_0;
    let shown = stage_fields(stage);
    assert(f@.len() == shown.len());
    assert(f@[0].0@ == shown[0].0 && shows(f@[0].1, shown[0].1));
    assert(f@[1].0@ == shown[1].0 && shows(f@[1].1, shown[1].1));
    assert(f@[2].0@ == shown[2].0 && shows(f@[2].1, shown[2].1));
    assert(f@[3].0@ == shown[3].0 && shows(f@[3].1, shown[3].1));
    let ops = f@[3].1->List_0;
    let each = stage.ops@.map_values(|op: OpProfile| Shown::Object(op_fields(op)));
    assert(shown[3].1 == Shown::List(each));
    if 0 <= at < ops@.len() {
        assert(shows(ops@[at], each[at]));
    }
}

/// A profile took as long as its stages took one after another, and tells each of them in order
/// beside the engine's own listing.
pub proof fn law_a_profile_is_its_stages_end_to_end(made: Made, profile: Profile, at: int)
    requires
        end_to_end(profile.stages@, profile.stages@.len()) <= u64::MAX,
        shows(made, Shown::Object(profile_fields(profile))),
    ensures
        made matches Made::Object(f) && f@.len() == 3 && f@[0].0@ == "stages"@ && (f@[0].1 matches Made::List(stages)
            && stages@.len() == profile.stages@.len() && (0 <= at < stages@.len() ==> shows(
            stages@[at],
            Shown::Object(stage_fields(profile.stages@[at])),
        ))) && f@[1].0@ == "nanos"@ && (f@[1].1 matches Made::Count(n) && n == end_to_end(
            profile.stages@,
            profile.stages@.len(),
        )) && f@[2].0@ == "text"@ && (f@[2].1 matches Made::Text(t) && t@ == profile.text@),
        end_to_end(profile.stages@, 0) == 0,
        0 <= at < profile.stages@.len() ==> end_to_end(profile.stages@, (at + 1) as nat) - end_to_end(
            profile.stages@,
            at as nat,
        ) == profile.stages@[at].nanos,
{
    let f = made->Object_0;
    let shown = profile_fields(profile);
    assert(f@.len() == shown.len());
    assert(f@[0].0@ == shown[0].0 && shows(f@[0].1, shown[0].1));
    assert(f@[1].0@ == shown[1].0 && shows(f@[1].1, shown[1].1));
    assert(f@[2].0@ == shown[2].0 && shows(f@[2].1, shown[2].1));
    let stages = f@[0].1->List_0;
    let each = profile.stages@.map_values(|stage: StageProfile| Shown::Object(stage_fields(stage)));
    assert(shown[0].1 == Shown::List(each));
    if 0 <= at < stages@.len() {
        assert(shows(stages@[at], each[at]));
    }
}

} // verus!
