//! The externality layer: KEEL verifies only here, against assertions no model authored. Three
//! model-free oracle kinds (a deterministic property check, the joint-wrong detector, the
//! trace-to-canon gate), the schema gate's decision, and the registry's fold of their verdicts
//! (every oracle must clear; any may raise joint-wrong).

use vstd::prelude::*;
use crate::engine::{evidence_views, failure_views};
use crate::privacy::{builtin_pattern, find_matches, pattern_of, pattern_str, regex_matches};
use crate::text::{join, push_str, str_eq, views};
use crate::types::{Assertion, Verdict};

verus! {

/// Asserts named, deterministic properties of an output; an unknown property fails closed.
pub struct PropertyOracle {
    pub properties: Vec<String>,
}

impl PropertyOracle {
    pub fn new(properties: Vec<String>) -> (r: Self)
        ensures
            r.properties == properties,
    {
        PropertyOracle { properties }
    }
}

/// The SSN shape the `no_ssn_pattern` property looks for.
pub open spec fn ssn_pattern() -> Seq<char> {
    pattern_of(1)
}

/// Whether a property is violated, with the failure: `no_ssn_pattern` fails when the output holds
/// an SSN-shaped span; any other property is unknown and fails closed.
pub open spec fn property_failure(property: Seq<char>, content: Seq<char>) -> Option<Seq<char>> {
    if property == "no_ssn_pattern"@ {
        if regex_matches(ssn_pattern(), content).len() > 0 {
            Some("no_ssn_pattern: output contains an SSN-shaped span"@)
        } else {
            None
        }
    } else {
        Some("unknown property '"@ + property + "' \u{2014} fail-closed (cannot assert what it cannot check)"@)
    }
}

/// Check one property of an output (see [`property_failure`]).
pub fn check_property(property: &str, content: &str) -> (r: Option<String>)
    ensures
        match property_failure(property@, content@) {
            Some(f) => r matches Some(s) && s@ == f,
            None => r is None,
        },
{
    if str_eq(property, "no_ssn_pattern") {
        let pat = pattern_str(1);
        assert(builtin_pattern(pat@));
        let ms = find_matches(pat, content);
        if ms.len() > 0 {
            Some(String::from_str("no_ssn_pattern: output contains an SSN-shaped span"))
        } else {
            None
        }
    } else {
        let mut m = String::from_str("unknown property '");
        push_str(&mut m, property);
        push_str(&mut m, "' \u{2014} fail-closed (cannot assert what it cannot check)");
        Some(m)
    }
}

/// The property oracle's evidence: one `property` assertion per property, in order.
pub open spec fn property_evidence(props: Seq<Seq<char>>, content: Seq<char>) -> Seq<(Seq<char>, Seq<char>)>
    decreases props.len(),
{
    if props.len() == 0 {
        seq![]
    } else {
        let p = props.last();
        property_evidence(props.drop_last(), content).push(
            (
                "property"@,
                match property_failure(p, content) {
                    Some(f) => f,
                    None => p + ": held"@,
                },
            ),
        )
    }
}

/// The property oracle's failures, in order.
pub open spec fn property_failures(props: Seq<Seq<char>>, content: Seq<char>) -> Seq<Seq<char>>
    decreases props.len(),
{
    if props.len() == 0 {
        seq![]
    } else {
        match property_failure(props.last(), content) {
            Some(f) => property_failures(props.drop_last(), content).push(f),
            None => property_failures(props.drop_last(), content),
        }
    }
}

impl PropertyOracle {
    /// The verdict on an output: passed when every property held; never joint-wrong.
    pub fn verdict(&self, content: &str) -> (v: Verdict)
        ensures
            failure_views(v) == property_failures(views(self.properties@), content@),
            evidence_views(v) == property_evidence(views(self.properties@), content@),
            v.passed == (property_failures(views(self.properties@), content@).len() == 0),
            !v.joint_wrong,
    {
        let mut failures: Vec<String> = Vec::new();
        let mut evidence: Vec<Assertion> = Vec::new();
        let mut i: usize = 0;
        while i < self.properties.len()
            invariant
                i <= self.properties@.len(),
                views(failures@) == property_failures(views(self.properties@.take(i as int)), content@),
                evidence@.map_values(|a: Assertion| (a.kind@, a.detail@)) == property_evidence(
                    views(self.properties@.take(i as int)),
                    content@,
                ),
            decreases self.properties@.len() - i,
        {
            let p = self.properties[i].as_str();
            proof {
                assert(views(self.properties@.take(i + 1)).drop_last() =~= views(self.properties@.take(i as int)));
                assert(views(self.properties@.take(i + 1)).last() == self.properties@[i as int]@);
            }
            let ghost f0 = views(failures@);
            let ghost e0 = evidence@.map_values(|a: Assertion| (a.kind@, a.detail@));
            match check_property(p, content) {
                Some(failure) => {
                    let d = failure.clone();
                    evidence.push(Assertion { kind: String::from_str("property"), detail: d });
                    let ghost fv = failure@;
                    failures.push(failure);
                    assert(views(failures@) =~= f0.push(fv));
                    assert(evidence@.map_values(|a: Assertion| (a.kind@, a.detail@)) =~= e0.push(("property"@, fv)));
                },
                None => {
                    let mut d = String::from_str(p);
                    push_str(&mut d, ": held");
                    let ghost dv = d@;
                    evidence.push(Assertion { kind: String::from_str("property"), detail: d });
                    assert(evidence@.map_values(|a: Assertion| (a.kind@, a.detail@)) =~= e0.push(("property"@, dv)));
                },
            }
            i = i + 1;
        }
        assert(self.properties@.take(self.properties@.len() as int) =~= self.properties@);
        let passed = failures.len() == 0;
        Verdict { passed, failures, joint_wrong: false, evidence }
    }
}

/// The joint-wrong detector: the output's own self-tests pass yet a frozen golden is violated.
pub struct GoldenOracle;

/// A bool rendered as `Display` renders it.
pub open spec fn bool_text(b: bool) -> Seq<char> {
    if b { "true"@ } else { "false"@ }
}

fn push_bool(s: &mut String, b: bool)
    ensures
        final(s)@ == old(s)@ + bool_text(b),
{
    if b {
        push_str(s, "true");
    } else {
        push_str(s, "false");
    }
}

impl GoldenOracle {
    /// The verdict from the artifact's `self_tests_pass` and `golden_violated` flags (each absent or
    /// non-boolean reads as false): a violated golden fails, and with passing self-tests it is
    /// `JOINT_WRONG`, the most dangerous finding.
    pub fn verdict(self_tests_pass: Option<bool>, golden_violated: Option<bool>) -> (v: Verdict)
        ensures
            ({
                let st = self_tests_pass == Some(true);
                let gv = golden_violated == Some(true);
                let jw = st && gv;
                &&& v.passed == !gv
                &&& v.joint_wrong == jw
                &&& failure_views(v) == if gv {
                    if jw {
                        seq![
                            "JOINT_WRONG: self-tests pass but a frozen golden is violated (systematic \u{2014} everything looked green)"@,
                        ]
                    } else {
                        seq!["golden_violated: output disagrees with a frozen golden"@]
                    }
                } else {
                    seq![]
                }
                &&& evidence_views(v) == seq![
                    (
                        if jw { "joint_wrong"@ } else { "golden"@ },
                        "self_tests_pass="@ + bool_text(st) + " golden_violated="@ + bool_text(gv),
                    ),
                ]
            }),
    {
        let st = match self_tests_pass {
            Some(b) => b,
            None => false,
        };
        let gv = match golden_violated {
            Some(b) => b,
            None => false,
        };
        let jw = st && gv;
        let mut failures: Vec<String> = Vec::new();
        if gv {
            if jw {
                failures.push(String::from_str(
                    "JOINT_WRONG: self-tests pass but a frozen golden is violated (systematic \u{2014} everything looked green)",
                ));
            } else {
                failures.push(String::from_str("golden_violated: output disagrees with a frozen golden"));
            }
        }
        let mut detail = String::from_str("self_tests_pass=");
        push_bool(&mut detail, st);
        push_str(&mut detail, " golden_violated=");
        push_bool(&mut detail, gv);
        let kind = if jw { String::from_str("joint_wrong") } else { String::from_str("golden") };
        let mut evidence: Vec<Assertion> = Vec::new();
        evidence.push(Assertion { kind, detail });
        let v = Verdict { passed: !gv, failures, joint_wrong: jw, evidence };
        assert(failure_views(v) =~= if gv {
            if jw {
                seq![
                    "JOINT_WRONG: self-tests pass but a frozen golden is violated (systematic \u{2014} everything looked green)"@,
                ]
            } else {
                seq!["golden_violated: output disagrees with a frozen golden"@]
            }
        } else {
            seq![]
        });
        assert(evidence_views(v) =~= seq![
            (
                if jw { "joint_wrong"@ } else { "golden"@ },
                "self_tests_pass="@ + bool_text(st) + " golden_violated="@ + bool_text(gv),
            ),
        ]);
        v
    }
}

/// The trace-to-canon gate: an ungrounded claim is `INSUFFICIENT_SOURCE` and routes to a human.
pub struct SourceOracle;

/// The failure for an ungrounded claim.
pub open spec fn insufficient_source(claim: Seq<char>) -> Seq<char> {
    "INSUFFICIENT_SOURCE: claim '"@ + claim + "' does not trace to the canon (\u{2192} human)"@
}

impl SourceOracle {
    /// The verdict from the artifact's `canon_supports` flag (absent or non-boolean reads as
    /// supported; only an explicit `false` flags) and its `claim` (absent reads as `<claim>`).
    pub fn verdict(canon_supports: Option<bool>, claim: Option<&str>) -> (v: Verdict)
        ensures
            canon_supports != Some(false) ==> v.passed && !v.joint_wrong && failure_views(v).len() == 0
                && evidence_views(v) == seq![("source"@, "claim traces to the canon"@)],
            canon_supports == Some(false) ==> {
                let c = match claim {
                    Some(c) => c@,
                    None => "<claim>"@,
                };
                &&& !v.passed && !v.joint_wrong
                &&& failure_views(v) == seq![insufficient_source(c)]
                &&& evidence_views(v) == seq![("source"@, insufficient_source(c))]
            },
    {
        let supports = match canon_supports {
            Some(b) => b,
            None => true,
        };
        if supports {
            let mut evidence: Vec<Assertion> = Vec::new();
            evidence.push(
                Assertion { kind: String::from_str("source"), detail: String::from_str("claim traces to the canon") },
            );
            let v = Verdict { passed: true, failures: Vec::new(), joint_wrong: false, evidence };
            assert(failure_views(v) =~= Seq::<Seq<char>>::empty());
            assert(evidence_views(v) =~= seq![("source"@, "claim traces to the canon"@)]);
            return v;
        }
        let c = match claim {
            Some(c) => c,
            None => "<claim>",
        };
        let mut failure = String::from_str("INSUFFICIENT_SOURCE: claim '");
        push_str(&mut failure, c);
        push_str(&mut failure, "' does not trace to the canon (\u{2192} human)");
        let mut failures: Vec<String> = Vec::new();
        failures.push(failure.clone());
        let mut evidence: Vec<Assertion> = Vec::new();
        evidence.push(Assertion { kind: String::from_str("source"), detail: failure });
        let v = Verdict { passed: false, failures, joint_wrong: false, evidence };
        assert(failure_views(v) =~= seq![insufficient_source(c@)]);
        assert(evidence_views(v) =~= seq![("source"@, insufficient_source(c@))]);
        v
    }
}

/// The registry's verdict over the registered oracles' verdicts, in registration order.
pub open spec fn folded(vs: Seq<Verdict>) -> (bool, bool, Seq<Seq<char>>, Seq<(Seq<char>, Seq<char>)>)
    decreases vs.len(),
{
    if vs.len() == 0 {
        (true, false, seq![], seq![])
    } else {
        let r = folded(vs.drop_last());
        let v = vs.last();
        (r.0 && v.passed, r.1 || v.joint_wrong, r.2 + failure_views(v), r.3 + evidence_views(v))
    }
}

/// Fold the registered oracles' verdicts into one: `passed` is AND (every oracle must clear; an
/// empty registry passes vacuously), `joint_wrong` is OR, failures and evidence concatenate.
pub fn fold_verdicts(verdicts: Vec<Verdict>) -> (r: Verdict)
    ensures
        (r.passed, r.joint_wrong, failure_views(r), evidence_views(r)) == folded(verdicts@),
{
    let mut agg = Verdict { passed: true, failures: Vec::new(), joint_wrong: false, evidence: Vec::new() };
    let mut i: usize = 0;
    let mut vs = verdicts;
    let ghost all = vs@;
    assert(failure_views(agg) =~= Seq::<Seq<char>>::empty());
    assert(evidence_views(agg) =~= Seq::<(Seq<char>, Seq<char>)>::empty());
    assert(all.take(0) =~= Seq::<Verdict>::empty());
    while i < vs.len()
        invariant
            i <= vs@.len(),
            vs@ == all,
            (agg.passed, agg.joint_wrong, failure_views(agg), evidence_views(agg)) == folded(all.take(i as int)),
        decreases vs@.len() - i,
    {
        proof {
            assert(all.take(i + 1).drop_last() =~= all.take(i as int));
            assert(all.take(i + 1).last() == all[i as int]);
        }
        let v = vs[i].clone();
        let ghost f0 = failure_views(agg);
        let ghost e0 = evidence_views(agg);
        let ghost fv = failure_views(vs@[i as int]);
        let ghost ev = evidence_views(vs@[i as int]);
        agg.passed = agg.passed && vs[i].passed;
        agg.joint_wrong = agg.joint_wrong || vs[i].joint_wrong;
        let mut f = clone_strings(&vs[i].failures);
        let mut e = clone_assertions(&vs[i].evidence);
        agg.failures.append(&mut f);
        agg.evidence.append(&mut e);
        assert(failure_views(agg) =~= f0 + fv);
        assert(evidence_views(agg) =~= e0 + ev);
        i = i + 1;
    }
    assert(all.take(all.len() as int) =~= all);
    agg
}

fn clone_strings(v: &Vec<String>) -> (r: Vec<String>)
    ensures
        views(r@) == views(v@),
{
    let mut r: Vec<String> = Vec::new();
    let mut i: usize = 0;
    while i < v.len()
        invariant
            i <= v@.len(),
            views(r@) == views(v@.take(i as int)),
        decreases v@.len() - i,
    {
        let ghost before = views(r@);
        let c = v[i].clone();
        assert(c@ == v@[i as int]@);
        r.push(c);
        assert(views(r@) =~= before.push(v@[i as int]@));
        assert(views(v@.take(i + 1)) =~= views(v@.take(i as int)).push(v@[i as int]@));
        assert(views(r@) =~= views(v@.take(i + 1)));
        i = i + 1;
    }
    assert(v@.take(v@.len() as int) =~= v@);
    r
}

fn clone_assertions(v: &Vec<Assertion>) -> (r: Vec<Assertion>)
    ensures
        r@.map_values(|a: Assertion| (a.kind@, a.detail@)) == v@.map_values(|a: Assertion| (a.kind@, a.detail@)),
{
    let mut r: Vec<Assertion> = Vec::new();
    let mut i: usize = 0;
    while i < v.len()
        invariant
            i <= v@.len(),
            r@.map_values(|a: Assertion| (a.kind@, a.detail@)) == v@.take(i as int).map_values(
                |a: Assertion| (a.kind@, a.detail@),
            ),
        decreases v@.len() - i,
    {
        let ghost before = r@.map_values(|a: Assertion| (a.kind@, a.detail@));
        let a = Assertion { kind: v[i].kind.clone(), detail: v[i].detail.clone() };
        assert(a.kind@ == v@[i as int].kind@ && a.detail@ == v@[i as int].detail@);
        r.push(a);
        assert(r@.map_values(|a: Assertion| (a.kind@, a.detail@)) =~= before.push((v@[i as int].kind@, v@[i as int].detail@)));
        assert(v@.take(i + 1).map_values(|a: Assertion| (a.kind@, a.detail@)) =~= v@.take(i as int).map_values(
            |a: Assertion| (a.kind@, a.detail@),
        ).push((v@[i as int].kind@, v@[i as int].detail@)));
        assert(r@.map_values(|a: Assertion| (a.kind@, a.detail@)) =~= v@.take(i + 1).map_values(
            |a: Assertion| (a.kind@, a.detail@),
        ));
        i = i + 1;
    }
    assert(v@.take(v@.len() as int) =~= v@);
    r
}

/// The registry passes exactly when every registered oracle passed, and raises joint-wrong
/// exactly when some oracle did.
pub proof fn lemma_registry_is_all_and_any(vs: Seq<Verdict>)
    ensures
        folded(vs).0 == forall|i: int| 0 <= i < vs.len() ==> (#[trigger] vs[i]).passed,
        folded(vs).1 == exists|i: int| 0 <= i < vs.len() && (#[trigger] vs[i]).joint_wrong,
    decreases vs.len(),
{
    if vs.len() > 0 {
        lemma_registry_is_all_and_any(vs.drop_last());
        let d = vs.drop_last();
        assert forall|i: int| 0 <= i < d.len() implies d[i] == vs[i] by {}
        if folded(vs).1 {
            if !vs.last().joint_wrong {
                let j = choose|j: int| 0 <= j < d.len() && (#[trigger] d[j]).joint_wrong;
                assert(vs[j].joint_wrong);
            } else {
                assert(vs[vs.len() - 1].joint_wrong);
            }
        }
        if !folded(vs).0 {
            if vs.last().passed {
                let j = choose|j: int| 0 <= j < d.len() && !(#[trigger] d[j]).passed;
                assert(!vs[j].passed);
            } else {
                assert(!vs[vs.len() - 1].passed);
            }
        }
    }
}

/// The failure text for an output that is not JSON.
pub open spec fn not_json_text(e: Seq<char>) -> Seq<char> {
    "schema: output is not JSON ("@ + e + ") \u{2014} rejected, never partially applied"@
}

/// The failure text for a schema that does not compile.
pub open spec fn schema_fault_text(e: Seq<char>) -> Seq<char> {
    "schema: cannot compile schema ("@ + e + ") \u{2014} fail-closed"@
}

/// The schema gate's verdict (passed, failures, evidence) from what validation found: an instance
/// that is not JSON, or a schema that does not compile, is rejected with that reason (fail
/// closed); otherwise the output passes exactly when there are no violations, each listed, with
/// one evidence line.
pub open spec fn spec_schema_verdict(
    not_json: Option<Seq<char>>,
    schema_fault: Option<Seq<char>>,
    violations: Seq<Seq<char>>,
) -> (bool, Seq<Seq<char>>, Seq<(Seq<char>, Seq<char>)>) {
    match not_json {
        Some(e) => (false, seq![not_json_text(e)], seq![("schema"@, not_json_text(e))]),
        None => match schema_fault {
            Some(e) => (false, seq![schema_fault_text(e)], seq![("schema"@, schema_fault_text(e))]),
            None => if violations.len() == 0 {
                (true, seq![], seq![("schema"@, "output validates against the schema"@)])
            } else {
                (
                    false,
                    violations,
                    seq![("schema"@, "schema-invalid (rejected, never partially applied): "@ + join(violations, "; "@))],
                )
            },
        },
    }
}

/// The schema gate's verdict, given what JSON-schema validation found (see
/// [`spec_schema_verdict`]).
pub fn schema_verdict(not_json: Option<String>, schema_fault: Option<String>, violations: Vec<String>) -> (v: Verdict)
    ensures
        (v.passed, failure_views(v), evidence_views(v)) == spec_schema_verdict(
            match not_json { Some(e) => Some(e@), None => None },
            match schema_fault { Some(e) => Some(e@), None => None },
            views(violations@),
        ),
        !v.joint_wrong,
{
    match not_json {
        Some(e) => {
            let mut d = String::from_str("schema: output is not JSON (");
            push_str(&mut d, e.as_str());
            push_str(&mut d, ") \u{2014} rejected, never partially applied");
            return reject(d);
        },
        None => {},
    }
    match schema_fault {
        Some(e) => {
            let mut d = String::from_str("schema: cannot compile schema (");
            push_str(&mut d, e.as_str());
            push_str(&mut d, ") \u{2014} fail-closed");
            return reject(d);
        },
        None => {},
    }
    let mut evidence: Vec<Assertion> = Vec::new();
    if violations.len() == 0 {
        evidence.push(Assertion {
            kind: String::from_str("schema"),
            detail: String::from_str("output validates against the schema"),
        });
        let v = Verdict { passed: true, failures: Vec::new(), joint_wrong: false, evidence };
        assert(failure_views(v) =~= Seq::<Seq<char>>::empty());
        assert(evidence_views(v) =~= seq![("schema"@, "output validates against the schema"@)]);
        return v;
    }
    let mut detail = String::from_str("schema-invalid (rejected, never partially applied): ");
    let joined = crate::text::join_strings(&violations, "; ");
    push_str(&mut detail, joined.as_str());
    evidence.push(Assertion { kind: String::from_str("schema"), detail });
    let v = Verdict { passed: false, failures: violations, joint_wrong: false, evidence };
    assert(failure_views(v) =~= views(violations@));
    assert(evidence_views(v) =~= seq![("schema"@, "schema-invalid (rejected, never partially applied): "@ + join(views(violations@), "; "@))]);
    v
}

/// The syntax error `serde_json::from_str` reports for a text that is not JSON, rendered with its
/// `Display` (`None` when the text parses).
pub uninterp spec fn json_error(text: Seq<char>) -> Option<Seq<char>>;

/// What JSON-schema validation under draft 2020-12 reports for an instance (both given as JSON
/// text, the schema's own `$schema` key set aside): the `Display` of each violation, in the
/// validator's order, or the error that stopped the schema from compiling.
pub uninterp spec fn schema_errors(schema_json: Seq<char>, instance_json: Seq<char>) -> Result<Seq<Seq<char>>, Seq<char>>;

/// Trusted: `serde_json::from_str::<serde_json::Value>`; the error, if any, as text. A function of
/// the text alone, named rather than restated.
#[verifier::external_body]
fn json_syntax_error(text: &str) -> (r: Option<String>)
    ensures
        match r { Some(e) => json_error(text@) == Some(e@), None => json_error(text@) is None },
{
    serde_json::from_str::<serde_json::Value>(text).err().map(|e| e.to_string())
}

/// Trusted: `jsonschema::options().with_draft(Draft202012).build` on the schema (parsed with
/// `serde_json::from_str`, its top-level `$schema` key removed so the pinned draft governs, as the
/// draft is otherwise detected from it), then `iter_errors` on the parsed instance; each error as
/// text. Named, not restated: the result depends on the two texts alone.
#[verifier::external_body]
fn validate_schema(schema_json: &str, instance_json: &str) -> (r: Result<Vec<String>, String>)
    ensures
        match r {
            Ok(es) => schema_errors(schema_json@, instance_json@) == Ok::<Seq<Seq<char>>, Seq<char>>(views(es@)),
            Err(e) => schema_errors(schema_json@, instance_json@) == Err::<Seq<Seq<char>>, Seq<char>>(e@),
        },
{
    let mut schema: serde_json::Value = serde_json::from_str(schema_json).map_err(|e| e.to_string())?;
    if let Some(obj) = schema.as_object_mut() {
        obj.remove("$schema");
    }
    let instance: serde_json::Value = serde_json::from_str(instance_json).map_err(|e| e.to_string())?;
    let v = jsonschema::options().with_draft(jsonschema::Draft::Draft202012).build(&schema).map_err(|e| e.to_string())?;
    Ok(v.iter_errors(&instance).map(|e| e.to_string()).collect())
}

/// Each violation reported as `schema: ` and its text.
pub open spec fn schema_lines(es: Seq<Seq<char>>) -> Seq<Seq<char>> {
    es.map_values(|e: Seq<char>| "schema: "@ + e)
}

/// What the schema gate checks: the structured artifact when the output carries one, else the
/// content as text.
pub open spec fn gate_instance(content: Seq<char>, artifact_json: Option<Seq<char>>) -> Seq<char> {
    match artifact_json {
        Some(a) => a,
        None => content,
    }
}

/// The findings of the schema gate on an instance: not JSON (then the schema is not compiled),
/// a schema that does not compile, or the violations.
pub open spec fn schema_gate_findings(schema_json: Seq<char>, instance: Seq<char>) -> (
    Option<Seq<char>>,
    Option<Seq<char>>,
    Seq<Seq<char>>,
) {
    match json_error(instance) {
        Some(e) => (Some(e), None, seq![]),
        None => match schema_errors(schema_json, instance) {
            Err(f) => (None, Some(f), seq![]),
            Ok(es) => (None, None, schema_lines(es)),
        },
    }
}

/// The JSON-schema gate: schema-valid or rejected, never partially applied. The instance is the
/// output's structured artifact (as JSON text) when it carries one, else its content; the schema
/// is pinned to draft 2020-12.
pub fn schema_oracle_verdict(schema_json: &str, content: &str, artifact_json: Option<&str>) -> (v: Verdict)
    ensures
        ({
            let f = schema_gate_findings(
                schema_json@,
                gate_instance(content@, match artifact_json { Some(a) => Some(a@), None => None }),
            );
            (v.passed, failure_views(v), evidence_views(v)) == spec_schema_verdict(f.0, f.1, f.2)
        }),
        !v.joint_wrong,
{
    let instance = match artifact_json {
        Some(a) => a,
        None => content,
    };
    match json_syntax_error(instance) {
        Some(e) => return schema_verdict(Some(e), None, Vec::new()),
        None => {},
    }
    match validate_schema(schema_json, instance) {
        Err(f) => schema_verdict(None, Some(f), Vec::new()),
        Ok(es) => {
            let mut lines: Vec<String> = Vec::new();
            let mut i: usize = 0;
            while i < es.len()
                invariant
                    i <= es@.len(),
                    views(lines@) == schema_lines(views(es@).take(i as int)),
                decreases es@.len() - i,
            {
                let ghost before = lines@;
                let mut l = String::from_str("schema: ");
                push_str(&mut l, es[i].as_str());
                assert(l@ == "schema: "@ + views(es@)[i as int]);
                lines.push(l);
                assert(views(lines@) =~= views(before).push(l@));
                assert(views(es@).take(i + 1) =~= views(es@).take(i as int).push(views(es@)[i as int]));
                assert(schema_lines(views(es@).take(i + 1)) =~= schema_lines(views(es@).take(i as int)).push(
                    "schema: "@ + views(es@)[i as int],
                ));
                i = i + 1;
            }
            assert(views(es@).take(es@.len() as int) =~= views(es@));
            schema_verdict(None, None, lines)
        },
    }
}

fn reject(detail: String) -> (v: Verdict)
    ensures
        !v.passed && !v.joint_wrong,
        failure_views(v) == seq![detail@],
        evidence_views(v) == seq![("schema"@, detail@)],
{
    let mut failures: Vec<String> = Vec::new();
    failures.push(detail.clone());
    let mut evidence: Vec<Assertion> = Vec::new();
    evidence.push(Assertion { kind: String::from_str("schema"), detail });
    let v = Verdict { passed: false, failures, joint_wrong: false, evidence };
    assert(failure_views(v) =~= seq![detail@]);
    assert(evidence_views(v) =~= seq![("schema"@, detail@)]);
    v
}

} // verus!
