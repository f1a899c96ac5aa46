//! Curated fixture suites and the text encoding of their operators.
use vstd::prelude::*;
use vstd::string::StrSliceExecFns;
use vstd::string::StringExecFns;

use crate::api::{active, annihilate, core_, create, expectation, general, matrix_element, operator_string, virtual_};
use crate::ast::{FermionOp, FermionOpKind, IndexSpace, SpecIndex, SpecOp};
use crate::reference::{CasReference, Expectation, MatrixElement, SpecMatrixElement};
use crate::sorting::{lemma_views_index, lemma_views_push, views};
use crate::text::same_text;

verus! {

/// A fixture case as a value.
pub struct SpecFixtureCase {
    pub name: Seq<char>,
    pub input: Seq<Seq<char>>,
    pub expected: Seq<char>,
}

/// A fixture suite as a value.
pub struct SpecFixtureSuite {
    pub version: int,
    pub suite: Seq<char>,
    pub cases: Seq<SpecFixtureCase>,
}

/// A matrix-element fixture case as a value.
pub struct SpecMatrixElementCase {
    pub name: Seq<char>,
    pub left: Seq<Seq<char>>,
    pub hamiltonian: Option<Seq<Seq<char>>>,
    pub right: Seq<Seq<char>>,
    pub expected: Seq<char>,
}

/// A matrix-element fixture suite as a value.
pub struct SpecMatrixElementSuite {
    pub version: int,
    pub suite: Seq<char>,
    pub cases: Seq<SpecMatrixElementCase>,
}

/// A named expectation value, its operators encoded as text, and its expected form.
#[derive(Debug, PartialEq, Eq)]
pub struct FixtureCase {
    pub name: String,
    pub input: Vec<String>,
    pub expected: String,
}

impl View for FixtureCase {
    type V = SpecFixtureCase;

    open spec fn view(&self) -> SpecFixtureCase {
        SpecFixtureCase { name: self.name@, input: views(self.input@), expected: self.expected@ }
    }
}

/// A versioned, named list of fixture cases.
#[derive(Debug, PartialEq, Eq)]
pub struct FixtureSuite {
    pub version: u32,
    pub suite: String,
    pub cases: Vec<FixtureCase>,
}

impl View for FixtureSuite {
    type V = SpecFixtureSuite;

    open spec fn view(&self) -> SpecFixtureSuite {
        SpecFixtureSuite {
            version: self.version as int,
            suite: self.suite@,
            cases: views(self.cases@),
        }
    }
}

/// A named matrix element, its three strings encoded as text, and its expected form.
#[derive(Debug, PartialEq, Eq)]
pub struct MatrixElementFixtureCase {
    pub name: String,
    pub left: Vec<String>,
    pub hamiltonian: Option<Vec<String>>,
    pub right: Vec<String>,
    pub expected: String,
}

impl View for MatrixElementFixtureCase {
    type V = SpecMatrixElementCase;

    open spec fn view(&self) -> SpecMatrixElementCase {
        SpecMatrixElementCase {
            name: self.name@,
            left: views(self.left@),
            hamiltonian: match self.hamiltonian {
                Some(h) => Some(views(h@)),
                None => None,
            },
            right: views(self.right@),
            expected: self.expected@,
        }
    }
}

/// A versioned, named list of matrix-element fixture cases.
#[derive(Debug, PartialEq, Eq)]
pub struct MatrixElementFixtureSuite {
    pub version: u32,
    pub suite: String,
    pub cases: Vec<MatrixElementFixtureCase>,
}

impl View for MatrixElementFixtureSuite {
    type V = SpecMatrixElementSuite;

    open spec fn view(&self) -> SpecMatrixElementSuite {
        SpecMatrixElementSuite {
            version: self.version as int,
            suite: self.suite@,
            cases: views(self.cases@),
        }
    }
}

pub open spec fn fixture_case(name: Seq<char>, input: Seq<Seq<char>>, expected: Seq<char>) -> SpecFixtureCase {
    SpecFixtureCase { name, input, expected }
}

/// The one-body reference suite.
pub open spec fn reference_one_body_suite() -> SpecFixtureSuite {
    SpecFixtureSuite {
        version: 1,
        suite: "reference_one_body"@,
        cases: seq![
            fixture_case(
                "active_to_gamma"@,
                seq!["create(u:active)"@, "annihilate(v:active)"@],
                "gamma(u,v)"@,
            ),
            fixture_case(
                "virtual_to_zero"@,
                seq!["create(a:virtual)"@, "annihilate(b:virtual)"@],
                "0"@,
            ),
            fixture_case(
                "core_to_delta"@,
                seq!["create(i:core)"@, "annihilate(j:core)"@],
                "delta(i,j)"@,
            ),
            fixture_case(
                "core_active_mixed_to_zero"@,
                seq!["create(i:core)"@, "annihilate(u:active)"@],
                "0"@,
            ),
            fixture_case(
                "active_virtual_mixed_to_zero"@,
                seq!["create(u:active)"@, "annihilate(a:virtual)"@],
                "0"@,
            ),
        ],
    }
}

/// The two-body reference suite.
pub open spec fn reference_two_body_suite() -> SpecFixtureSuite {
    SpecFixtureSuite {
        version: 1,
        suite: "reference_two_body"@,
        cases: seq![
            fixture_case(
                "active_to_gamma2"@,
                seq![
                    "create(u:active)"@,
                    "create(v:active)"@,
                    "annihilate(w:active)"@,
                    "annihilate(x:active)"@,
                ],
                "Gamma(u,v;w,x)"@,
            ),
            fixture_case(
                "core_to_delta_delta"@,
                seq![
                    "create(i:core)"@,
                    "create(j:core)"@,
                    "annihilate(k:core)"@,
                    "annihilate(l:core)"@,
                ],
                "delta(i,l) * delta(j,k) - delta(i,k) * delta(j,l)"@,
            ),
            fixture_case(
                "core_active_to_signed_delta_gamma"@,
                seq![
                    "create(i:core)"@,
                    "create(u:active)"@,
                    "annihilate(j:core)"@,
                    "annihilate(v:active)"@,
                ],
                "- delta(i,j) * gamma(u,v)"@,
            ),
            fixture_case(
                "virtual_containing_two_body_to_zero"@,
                seq![
                    "create(a:virtual)"@,
                    "create(u:active)"@,
                    "annihilate(v:active)"@,
                    "annihilate(b:virtual)"@,
                ],
                "0"@,
            ),
        ],
    }
}

/// The matrix-element suite.
pub open spec fn matrix_element_suite() -> SpecMatrixElementSuite {
    SpecMatrixElementSuite {
        version: 1,
        suite: "matrix_element"@,
        cases: seq![
            SpecMatrixElementCase {
                name: "canonical_overlap_like"@,
                left: seq!["create(u:active)"@, "annihilate(a:virtual)"@],
                hamiltonian: None,
                right: seq!["create(b:virtual)"@, "annihilate(v:active)"@],
                expected: "delta(a,b) * gamma(u,v)"@,
            },
            SpecMatrixElementCase {
                name: "right_requires_normal_ordering"@,
                left: seq!["create(u:active)"@, "annihilate(a:virtual)"@],
                hamiltonian: None,
                right: seq!["annihilate(v:active)"@, "create(b:virtual)"@],
                expected: "- delta(a,b) * gamma(u,v)"@,
            },
            SpecMatrixElementCase {
                name: "one_body_hamiltonian_in_middle"@,
                left: seq!["create(u:active)"@, "annihilate(a:virtual)"@],
                hamiltonian: Some(seq!["create(x:active)"@, "annihilate(y:active)"@]),
                right: seq!["create(b:virtual)"@, "annihilate(v:active)"@],
                expected: "- delta(a,b) * Gamma(u,x;v,y)"@,
            },
        ],
    }
}

fn text(s: &str) -> (res: String)
    ensures
        res@ == s@,
{
    String::from_str(s)
}

fn texts2(a: &str, b: &str) -> (res: Vec<String>)
    ensures
        views(res@) == seq![a@, b@],
{
    let res = vec![text(a), text(b)];
    assert(views(res@) =~= seq![a@, b@]);
    res
}

fn texts4(a: &str, b: &str, c: &str, d: &str) -> (res: Vec<String>)
    ensures
        views(res@) == seq![a@, b@, c@, d@],
{
    let res = vec![text(a), text(b), text(c), text(d)];
    assert(views(res@) =~= seq![a@, b@, c@, d@]);
    res
}

fn case(name: &str, input: Vec<String>, expected: &str) -> (res: FixtureCase)
    ensures
        res@ == fixture_case(name@, views(input@), expected@),
{
    FixtureCase { name: text(name), input, expected: text(expected) }
}

/// Builds the one-body reference suite.
pub fn build_reference_one_body_suite() -> (res: FixtureSuite)
    ensures
        res@ == reference_one_body_suite(),
{
    let res = FixtureSuite {
        version: 1,
        suite: text("reference_one_body"),
        cases: vec![
            case(
                "active_to_gamma",
                texts2("create(u:active)", "annihilate(v:active)"),
                "gamma(u,v)",
            ),
            case("virtual_to_zero", texts2("create(a:virtual)", "annihilate(b:virtual)"), "0"),
            case("core_to_delta", texts2("create(i:core)", "annihilate(j:core)"), "delta(i,j)"),
            case(
                "core_active_mixed_to_zero",
                texts2("create(i:core)", "annihilate(u:active)"),
                "0",
            ),
            case(
                "active_virtual_mixed_to_zero",
                texts2("create(u:active)", "annihilate(a:virtual)"),
                "0",
            ),
        ],
    };
    assert(res@.cases =~= reference_one_body_suite().cases);
    res
}

/// Builds the two-body reference suite.
pub fn build_reference_two_body_suite() -> (res: FixtureSuite)
    ensures
        res@ == reference_two_body_suite(),
{
    let res = FixtureSuite {
        version: 1,
        suite: text("reference_two_body"),
        cases: vec![
            case(
                "active_to_gamma2",
                texts4(
                    "create(u:active)",
                    "create(v:active)",
                    "annihilate(w:active)",
                    "annihilate(x:active)",
                ),
                "Gamma(u,v;w,x)",
            ),
            case(
                "core_to_delta_delta",
                texts4("create(i:core)", "create(j:core)", "annihilate(k:core)", "annihilate(l:core)"),
                "delta(i,l) * delta(j,k) - delta(i,k) * delta(j,l)",
            ),
            case(
                "core_active_to_signed_delta_gamma",
                texts4(
                    "create(i:core)",
                    "create(u:active)",
                    "annihilate(j:core)",
                    "annihilate(v:active)",
                ),
                "- delta(i,j) * gamma(u,v)",
            ),
            case(
                "virtual_containing_two_body_to_zero",
                texts4(
                    "create(a:virtual)",
                    "create(u:active)",
                    "annihilate(v:active)",
                    "annihilate(b:virtual)",
                ),
                "0",
            ),
        ],
    };
    assert(res@.cases =~= reference_two_body_suite().cases);
    res
}

/// Builds the matrix-element suite.
pub fn build_matrix_element_suite() -> (res: MatrixElementFixtureSuite)
    ensures
        res@ == matrix_element_suite(),
{
    let res = MatrixElementFixtureSuite {
        version: 1,
        suite: text("matrix_element"),
        cases: vec![
            MatrixElementFixtureCase {
                name: text("canonical_overlap_like"),
                left: texts2("create(u:active)", "annihilate(a:virtual)"),
                hamiltonian: None,
                right: texts2("create(b:virtual)", "annihilate(v:active)"),
                expected: text("delta(a,b) * gamma(u,v)"),
            },
            MatrixElementFixtureCase {
                name: text("right_requires_normal_ordering"),
                left: texts2("create(u:active)", "annihilate(a:virtual)"),
                hamiltonian: None,
                right: texts2("annihilate(v:active)", "create(b:virtual)"),
                expected: text("- delta(a,b) * gamma(u,v)"),
            },
            MatrixElementFixtureCase {
                name: text("one_body_hamiltonian_in_middle"),
                left: texts2("create(u:active)", "annihilate(a:virtual)"),
                hamiltonian: Some(texts2("create(x:active)", "annihilate(y:active)")),
                right: texts2("create(b:virtual)", "annihilate(v:active)"),
                expected: text("- delta(a,b) * Gamma(u,x;v,y)"),
            },
        ],
    };
    assert(res@.cases =~= matrix_element_suite().cases);
    res
}

/// The path of a suite's file: `tests/fixtures/<name>.json`, joined as paths are, so
/// that a name that is itself an absolute path, starting with `/`, replaces the
/// directory and gives `<name>.json`.
pub fn fixture_path(suite_name: &str) -> (res: String)
    ensures
        res@ == if suite_name@.len() > 0 && suite_name@[0] == '/' {
            suite_name@ + ".json"@
        } else {
            "tests/fixtures/"@ + suite_name@ + ".json"@
        },
{
    let absolute = suite_name.unicode_len() > 0 && suite_name.get_char(0) == '/';
    let mut path = if absolute {
        text("")
    } else {
        text("tests/fixtures/")
    };
    path.append(suite_name);
    path.append(".json");
    proof {
        reveal_strlit("");
    }
    assert(path@ =~= if absolute {
        suite_name@ + ".json"@
    } else {
        "tests/fixtures/"@ + suite_name@ + ".json"@
    });
    path
}

// ---------------------------------------------------------------------------
// Decoding operators
// ---------------------------------------------------------------------------
/// Why an encoded operator could not be decoded; each holds the offending text.
#[derive(Debug, PartialEq, Eq)]
pub enum FixtureError {
    /// No `(` or no closing `)`: holds the whole encoding.
    InvalidOp(String),
    /// No `:` between symbol and space: holds the whole encoding.
    InvalidPayload(String),
    /// A kind other than `create` and `annihilate`: holds the kind.
    UnsupportedKind(String),
    /// A space other than `active`, `core`, `virtual` and `general`: holds the space.
    UnsupportedSpace(String),
}

/// A decoding error as a value.
pub enum SpecFixtureError {
    InvalidOp(Seq<char>),
    InvalidPayload(Seq<char>),
    UnsupportedKind(Seq<char>),
    UnsupportedSpace(Seq<char>),
}

impl View for FixtureError {
    type V = SpecFixtureError;

    open spec fn view(&self) -> SpecFixtureError {
        match self {
            FixtureError::InvalidOp(s) => SpecFixtureError::InvalidOp(s@),
            FixtureError::InvalidPayload(s) => SpecFixtureError::InvalidPayload(s@),
            FixtureError::UnsupportedKind(s) => SpecFixtureError::UnsupportedKind(s@),
            FixtureError::UnsupportedSpace(s) => SpecFixtureError::UnsupportedSpace(s@),
        }
    }
}

/// The text of a decoding error.
pub open spec fn fixture_error_text(e: SpecFixtureError) -> Seq<char> {
    match e {
        SpecFixtureError::InvalidOp(s) => "invalid fixture op: "@ + s,
        SpecFixtureError::InvalidPayload(s) => "invalid fixture op payload: "@ + s,
        SpecFixtureError::UnsupportedKind(s) => "unsupported fixture op kind: "@ + s,
        SpecFixtureError::UnsupportedSpace(s) => "unsupported fixture space: "@ + s,
    }
}

impl FixtureError {
    /// The message of the error, for example `unsupported fixture space: spin`.
    pub fn message(&self) -> (res: String)
        ensures
            res@ == fixture_error_text(self@),
    {
        let (mut out, detail) = match self {
            FixtureError::InvalidOp(s) => (text("invalid fixture op: "), s),
            FixtureError::InvalidPayload(s) => (text("invalid fixture op payload: "), s),
            FixtureError::UnsupportedKind(s) => (text("unsupported fixture op kind: "), s),
            FixtureError::UnsupportedSpace(s) => (text("unsupported fixture space: "), s),
        };
        out.append(detail.as_str());
        out
    }
}

/// The first position at or after `start` that holds `c`.
pub open spec fn first_index_from(s: Seq<char>, c: char, start: int) -> Option<int>
    decreases s.len() - start,
{
    if start < 0 || start >= s.len() {
        None
    } else if s[start] == c {
        Some(start)
    } else {
        first_index_from(s, c, start + 1)
    }
}

pub proof fn lemma_first_index_from(s: Seq<char>, c: char, start: int)
    requires
        0 <= start,
    ensures
        match first_index_from(s, c, start) {
            Some(i) => start <= i < s.len() && s[i] == c,
            None => true,
        },
    decreases s.len() - start,
{
    if start < s.len() && s[start] != c {
        lemma_first_index_from(s, c, start + 1);
    }
}

/// The space a name denotes.
pub open spec fn space_named(name: Seq<char>) -> Option<IndexSpace> {
    if name == "active"@ {
        Some(IndexSpace::Active)
    } else if name == "core"@ {
        Some(IndexSpace::Core)
    } else if name == "virtual"@ {
        Some(IndexSpace::Virtual)
    } else if name == "general"@ {
        Some(IndexSpace::General)
    } else {
        None
    }
}

/// The kind a name denotes.
pub open spec fn kind_named(name: Seq<char>) -> Option<FermionOpKind> {
    if name == "create"@ {
        Some(FermionOpKind::Create)
    } else if name == "annihilate"@ {
        Some(FermionOpKind::Annihilate)
    } else {
        None
    }
}

/// Decodes `kind(symbol:space)`: the kind is the text before the first `(`, the
/// encoding must end in `)`, the symbol is the text before the first `:` inside, the
/// space the text after it. The space is checked before the kind.
pub open spec fn decode_op(encoded: Seq<char>) -> Result<SpecOp, SpecFixtureError> {
    match first_index_from(encoded, '(', 0) {
        None => Err(SpecFixtureError::InvalidOp(encoded)),
        Some(i) => {
            let kind = encoded.take(i);
            let rest = encoded.skip(i + 1);
            if rest.len() == 0 || rest.last() != ')' {
                Err(SpecFixtureError::InvalidOp(encoded))
            } else {
                let payload = rest.drop_last();
                match first_index_from(payload, ':', 0) {
                    None => Err(SpecFixtureError::InvalidPayload(encoded)),
                    Some(j) => {
                        let symbol = payload.take(j);
                        let space = payload.skip(j + 1);
                        match space_named(space) {
                            None => Err(SpecFixtureError::UnsupportedSpace(space)),
                            Some(sp) => match kind_named(kind) {
                                None => Err(SpecFixtureError::UnsupportedKind(kind)),
                                Some(k) => Ok(
                                    SpecOp { kind: k, index: SpecIndex { symbol, space: sp } },
                                ),
                            },
                        }
                    },
                }
            }
        },
    }
}

/// Decodes each operator in turn; the first failure is the result.
pub open spec fn decode_ops(encoded: Seq<Seq<char>>) -> Result<Seq<SpecOp>, SpecFixtureError>
    decreases encoded.len(),
{
    if encoded.len() == 0 {
        Ok(Seq::empty())
    } else {
        match decode_ops(encoded.drop_last()) {
            Err(e) => Err(e),
            Ok(ops) => match decode_op(encoded.last()) {
                Err(e) => Err(e),
                Ok(op) => Ok(ops.push(op)),
            },
        }
    }
}

fn find_char(s: &str, c: char) -> (res: Option<usize>)
    ensures
        match res {
            Some(i) => first_index_from(s@, c, 0) == Some(i as int),
            None => first_index_from(s@, c, 0) is None,
        },
{
    let n = s.unicode_len();
    let mut i: usize = 0;
    while i < n
        invariant
            n == s@.len(),
            i <= n,
            first_index_from(s@, c, 0) == first_index_from(s@, c, i as int),
        decreases n - i,
    {
        if s.get_char(i) == c {
            return Some(i);
        }
        i = i + 1;
    }
    None
}

fn parse_index(symbol: &str, space: &str) -> (res: Result<crate::ast::Index, FixtureError>)
    ensures
        match res {
            Ok(index) => space_named(space@) == Some(index@.space) && index@.symbol == symbol@,
            Err(e) => space_named(space@) is None && e@ == SpecFixtureError::UnsupportedSpace(
                space@,
            ),
        },
{
    if same_text(space, "active") {
        Ok(active(symbol))
    } else if same_text(space, "core") {
        Ok(core_(symbol))
    } else if same_text(space, "virtual") {
        Ok(virtual_(symbol))
    } else if same_text(space, "general") {
        Ok(general(symbol))
    } else {
        Err(FixtureError::UnsupportedSpace(text(space)))
    }
}

/// Decodes one operator written as `kind(symbol:space)`.
pub fn parse_op(encoded: &str) -> (res: Result<FermionOp, FixtureError>)
    ensures
        match res {
            Ok(op) => decode_op(encoded@) == Ok::<SpecOp, SpecFixtureError>(op@),
            Err(e) => decode_op(encoded@) == Err::<SpecOp, SpecFixtureError>(e@),
        },
{
    let n = encoded.unicode_len();
    let open = match find_char(encoded, '(') {
        Some(i) => i,
        None => {
            return Err(FixtureError::InvalidOp(text(encoded)));
        },
    };
    proof {
        lemma_first_index_from(encoded@, '(', 0);
    }
    let kind = encoded.substring_char(0, open);
    let rest = encoded.substring_char(open + 1, n);
    assert(kind@ =~= encoded@.take(open as int));
    assert(rest@ =~= encoded@.skip(open + 1));
    let rest_len = rest.unicode_len();
    if rest_len == 0 || rest.get_char(rest_len - 1) != ')' {
        return Err(FixtureError::InvalidOp(text(encoded)));
    }
    let payload = rest.substring_char(0, rest_len - 1);
    assert(payload@ =~= rest@.drop_last());
    let colon = match find_char(payload, ':') {
        Some(j) => j,
        None => {
            return Err(FixtureError::InvalidPayload(text(encoded)));
        },
    };
    proof {
        lemma_first_index_from(payload@, ':', 0);
    }
    let payload_len = payload.unicode_len();
    let symbol = payload.substring_char(0, colon);
    let space = payload.substring_char(colon + 1, payload_len);
    assert(symbol@ =~= payload@.take(colon as int));
    assert(space@ =~= payload@.skip(colon + 1));
    let index = match parse_index(symbol, space) {
        Ok(index) => index,
        Err(e) => {
            return Err(e);
        },
    };
    if same_text(kind, "create") {
        Ok(create(index))
    } else if same_text(kind, "annihilate") {
        Ok(annihilate(index))
    } else {
        Err(FixtureError::UnsupportedKind(text(kind)))
    }
}

/// Decodes every operator of a list, in order.
pub fn parse_ops(encoded_ops: &[String]) -> (res: Result<Vec<FermionOp>, FixtureError>)
    ensures
        match res {
            Ok(ops) => decode_ops(views(encoded_ops@)) == Ok::<Seq<SpecOp>, SpecFixtureError>(
                views(ops@),
            ),
            Err(e) => decode_ops(views(encoded_ops@)) == Err::<Seq<SpecOp>, SpecFixtureError>(
                e@,
            ),
        },
{
    let ghost enc = views(encoded_ops@);
    let mut ops: Vec<FermionOp> = Vec::new();
    let mut i: usize = 0;
    assert(enc.take(0) =~= Seq::<Seq<char>>::empty());
    assert(views(ops@) =~= Seq::<SpecOp>::empty());
    while i < encoded_ops.len()
        invariant
            enc == views(encoded_ops@),
            i <= encoded_ops.len(),
            decode_ops(enc.take(i as int)) == Ok::<Seq<SpecOp>, SpecFixtureError>(views(ops@)),
        decreases encoded_ops.len() - i,
    {
        proof {
            lemma_views_index(encoded_ops@, i as int);
        }
        assert(enc.take(i + 1).drop_last() =~= enc.take(i as int));
        assert(enc.take(i + 1).last() == encoded_ops@[i as int]@);
        let op = match parse_op(encoded_ops[i].as_str()) {
            Ok(op) => op,
            Err(e) => {
                proof {
                    lemma_decode_ops_prefix_err(enc, i as int + 1);
                }
                return Err(e);
            },
        };
        proof {
            lemma_views_push(ops@, op);
        }
        ops.push(op);
        i = i + 1;
    }
    assert(enc.take(i as int) =~= enc);
    Ok(ops)
}

/// A failure in a prefix is the failure of the whole list.
proof fn lemma_decode_ops_prefix_err(enc: Seq<Seq<char>>, k: int)
    requires
        0 <= k <= enc.len(),
        decode_ops(enc.take(k)) is Err,
    ensures
        decode_ops(enc) == decode_ops(enc.take(k)),
    decreases enc.len() - k,
{
    if k < enc.len() {
        assert(enc.take(k + 1).drop_last() =~= enc.take(k));
        lemma_decode_ops_prefix_err(enc, k + 1);
    } else {
        assert(enc.take(k) =~= enc);
    }
}

/// Builds the expectation value of a fixture case.
pub fn build_expectation_from_fixture_case(case: &FixtureCase, reference: CasReference) -> (res:
    Result<Expectation, FixtureError>)
    ensures
        match res {
            Ok(e) => decode_ops(case@.input) == Ok::<Seq<SpecOp>, SpecFixtureError>(e@),
            Err(err) => decode_ops(case@.input) == Err::<Seq<SpecOp>, SpecFixtureError>(err@),
        },
{
    let ops = match parse_ops(case.input.as_slice()) {
        Ok(ops) => ops,
        Err(e) => {
            return Err(e);
        },
    };
    Ok(expectation(operator_string(ops), reference))
}

/// The matrix element a matrix-element case encodes: left, Hamiltonian and right are
/// decoded in that order; the first failure is the result.
pub open spec fn decode_matrix_element(case: SpecMatrixElementCase) -> Result<
    SpecMatrixElement,
    SpecFixtureError,
> {
    match decode_ops(case.left) {
        Err(e) => Err(e),
        Ok(left) => {
            let hamiltonian = match case.hamiltonian {
                None => Ok(None),
                Some(h) => match decode_ops(h) {
                    Err(e) => Err(e),
                    Ok(ops) => Ok(Some(ops)),
                },
            };
            match hamiltonian {
                Err(e) => Err(e),
                Ok(ham) => match decode_ops(case.right) {
                    Err(e) => Err(e),
                    Ok(right) => Ok(SpecMatrixElement { left, hamiltonian: ham, right }),
                },
            }
        },
    }
}

/// Builds the matrix element of a matrix-element fixture case.
pub fn build_matrix_element_from_fixture_case(
    case: &MatrixElementFixtureCase,
    reference: CasReference,
) -> (res: Result<MatrixElement, FixtureError>)
    ensures
        match res {
            Ok(m) => decode_matrix_element(case@) == Ok::<SpecMatrixElement, SpecFixtureError>(
                m@,
            ),
            Err(err) => decode_matrix_element(case@) == Err::<SpecMatrixElement, SpecFixtureError>(
                err@,
            ),
        },
{
    let left = match parse_ops(case.left.as_slice()) {
        Ok(ops) => operator_string(ops),
        Err(e) => {
            return Err(e);
        },
    };
    let hamiltonian = match &case.hamiltonian {
        None => None,
        Some(ops) => match parse_ops(ops.as_slice()) {
            Ok(parsed) => Some(operator_string(parsed)),
            Err(e) => {
                return Err(e);
            },
        },
    };
    let right = match parse_ops(case.right.as_slice()) {
        Ok(ops) => operator_string(ops),
        Err(e) => {
            return Err(e);
        },
    };
    Ok(matrix_element(left, hamiltonian, right, reference))
}

} // verus!
