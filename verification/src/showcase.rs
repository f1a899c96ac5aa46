//! What the demonstration shows: its sample expressions, the generator that picks
//! them, and the layout of reduced forms one term per line.
use vstd::prelude::*;
use vstd::string::{StrSliceExecFns, StringExecFns};

use crate::api::{active, annihilate, core_, create, expectation, matrix_element, operator_string, virtual_};
use crate::ast::{FermionOp, FermionOpKind, IndexSpace, SpecIndex, SpecOp};
use crate::reference::{
    CasReference, Expectation, MatrixElement, SpecInput, SpecMatrixElement, TensorSimplifyError,
    input_fits, input_form, render_tensor, simplify_tensor_form,
};
use crate::rewrite::SimplifyConfig;
use crate::sorting::views;
use crate::text::same_text;

verus! {

// ---------------------------------------------------------------------------
// White space
// ---------------------------------------------------------------------------
/// Whether `c` has the Unicode White_Space property.
pub open spec fn is_white_space(c: char) -> bool {
    let u = c as u32;
    ||| 0x9 <= u <= 0xd
    ||| u == 0x20
    ||| u == 0x85
    ||| u == 0xa0
    ||| u == 0x1680
    ||| 0x2000 <= u <= 0x200a
    ||| u == 0x2028
    ||| u == 0x2029
    ||| u == 0x202f
    ||| u == 0x205f
    ||| u == 0x3000
}

fn white_space(c: char) -> (res: bool)
    ensures
        res == is_white_space(c),
{
    let u = c as u32;
    (0x9 <= u && u <= 0xd) || u == 0x20 || u == 0x85 || u == 0xa0 || u == 0x1680 || (0x2000 <= u
        && u <= 0x200a) || u == 0x2028 || u == 0x2029 || u == 0x202f || u == 0x205f || u == 0x3000
}

/// `s` without its leading white space.
pub open spec fn trim_start(s: Seq<char>) -> Seq<char>
    decreases s.len(),
{
    if s.len() > 0 && is_white_space(s[0]) {
        trim_start(s.drop_first())
    } else {
        s
    }
}

/// `s` without its trailing white space.
pub open spec fn trim_end(s: Seq<char>) -> Seq<char>
    decreases s.len(),
{
    if s.len() > 0 && is_white_space(s.last()) {
        trim_end(s.drop_last())
    } else {
        s
    }
}

/// `s` without leading and trailing white space.
pub open spec fn trim(s: Seq<char>) -> Seq<char> {
    trim_end(trim_start(s))
}

/// The text without leading and trailing white space.
pub fn trim_text(s: &str) -> (res: String)
    ensures
        res@ == trim(s@),
{
    let n = s.unicode_len();
    let mut a: usize = 0;
    assert(s@.skip(0) =~= s@);
    while a < n && white_space(s.get_char(a))
        invariant
            a <= n,
            n == s@.len(),
            trim_start(s@) == trim_start(s@.skip(a as int)),
        decreases n - a,
    {
        assert(s@.skip(a as int).drop_first() =~= s@.skip(a + 1));
        a = a + 1;
    }
    let ghost t = s@.skip(a as int);
    assert(trim_start(s@) == t) by {
        if a < n {
            assert(t[0] == s@[a as int]);
        } else {
            assert(t.len() == 0);
        }
    }
    let mut b: usize = n - a;
    assert(t.take(b as int) =~= t);
    while b > 0 && white_space(s.get_char(a + b - 1))
        invariant
            a + b <= n,
            n == s@.len(),
            t == s@.skip(a as int),
            trim_end(t) == trim_end(t.take(b as int)),
        decreases b,
    {
        assert(t.take(b as int).last() == s@[a + b - 1]);
        assert(t.take(b as int).drop_last() =~= t.take(b - 1));
        b = b - 1;
    }
    assert(trim_end(t) == t.take(b as int)) by {
        if b > 0 {
            assert(t.take(b as int).last() == s@[a + b - 1]);
        }
    }
    let piece = s.substring_char(a, a + b);
    assert(piece@ =~= t.take(b as int));
    String::from_str(piece)
}

// ---------------------------------------------------------------------------
// A sum, one term per line
// ---------------------------------------------------------------------------
/// A sign between two terms at `i`: ` + ` or ` - `.
pub open spec fn separator_at(s: Seq<char>, i: int) -> bool {
    &&& 0 <= i
    &&& i + 2 < s.len()
    &&& s[i] == ' '
    &&& (s[i + 1] == '+' || s[i + 1] == '-')
    &&& s[i + 2] == ' '
}

/// The nonempty trimmed piece, as a list of zero or one piece.
pub open spec fn kept_piece(piece: Seq<char>) -> Seq<Seq<char>> {
    if trim(piece).len() > 0 {
        seq![trim(piece)]
    } else {
        Seq::empty()
    }
}

/// Scanning from `i` with the current piece starting at `start`: at each separator
/// the piece ends and the next one starts at its sign; a scan resumes after the
/// separator.
pub open spec fn split_scan(s: Seq<char>, start: int, i: int) -> Seq<Seq<char>>
    decreases s.len() - i,
{
    if i < 0 || i + 2 >= s.len() {
        kept_piece(s.subrange(start, s.len() as int))
    } else if separator_at(s, i) {
        kept_piece(s.subrange(start, i)) + split_scan(s, i + 1, i + 3)
    } else {
        split_scan(s, start, i + 1)
    }
}

/// The terms of a rendered sum, each with its sign; the whole text when no piece is
/// left.
pub open spec fn sum_terms(s: Seq<char>) -> Seq<Seq<char>> {
    if split_scan(s, 0, 0).len() == 0 {
        seq![s]
    } else {
        split_scan(s, 0, 0)
    }
}

/// Splits a rendered sum into its terms, for example `a - b + c` into `a`, `- b`,
/// `+ c`.
pub fn split_sum_terms(content: &str) -> (res: Vec<String>)
    ensures
        views(res@) == sum_terms(content@),
{
    let ghost s = content@;
    let n = content.unicode_len();
    let mut parts: Vec<String> = Vec::new();
    let mut start: usize = 0;
    let mut i: usize = 0;
    assert(views(parts@) =~= Seq::<Seq<char>>::empty());
    while i < n && n - i > 2
        invariant
            s == content@,
            n == s.len(),
            start <= i <= n,
            views(parts@) + split_scan(s, start as int, i as int) == split_scan(s, 0, 0),
        decreases n - i,
    {
        let c0 = content.get_char(i);
        let c1 = content.get_char(i + 1);
        let c2 = content.get_char(i + 2);
        if c0 == ' ' && (c1 == '+' || c1 == '-') && c2 == ' ' {
            assert(separator_at(s, i as int));
            let piece = content.substring_char(start, i);
            let term = trim_text(piece);
            let ghost before = views(parts@);
            if term.unicode_len() > 0 {
                proof {
                    crate::sorting::lemma_views_push(parts@, term);
                }
                parts.push(term);
                assert(views(parts@) == before + kept_piece(s.subrange(start as int, i as int)));
            } else {
                assert(kept_piece(s.subrange(start as int, i as int)) =~= Seq::<Seq<char>>::empty());
                assert(views(parts@) =~= before + kept_piece(s.subrange(start as int, i as int)));
            }
            assert(split_scan(s, start as int, i as int) == kept_piece(s.subrange(start as int, i as int))
                + split_scan(s, i + 1, i + 3));
            assert(views(parts@) + split_scan(s, i + 1, i + 3) =~= before + split_scan(
                s,
                start as int,
                i as int,
            ));
            start = i + 1;
            i = i + 3;
        } else {
            assert(!separator_at(s, i as int));
            i = i + 1;
        }
    }
    let piece = content.substring_char(start, n);
    let tail = trim_text(piece);
    let ghost before = views(parts@);
    assert(split_scan(s, start as int, i as int) == kept_piece(s.subrange(start as int, n as int)));
    if tail.unicode_len() > 0 {
        proof {
            crate::sorting::lemma_views_push(parts@, tail);
        }
        parts.push(tail);
    }
    assert(views(parts@) =~= split_scan(s, 0, 0));
    if parts.len() == 0 {
        let whole = vec![String::from_str(content)];
        assert(views(whole@) =~= seq![s]);
        whole
    } else {
        parts
    }
}

/// Every occurrence of `pattern` in `s`, from the left and not overlapping, replaced by
/// `replacement`.
pub open spec fn replace_all(s: Seq<char>, pattern: Seq<char>, replacement: Seq<char>) -> Seq<char>
    decreases s.len(),
{
    if pattern.len() == 0 || s.len() < pattern.len() {
        s
    } else if s.take(pattern.len() as int) == pattern {
        replacement + replace_all(s.skip(pattern.len() as int), pattern, replacement)
    } else {
        seq![s[0]] + replace_all(s.drop_first(), pattern, replacement)
    }
}

/// Replaces every occurrence of a nonempty pattern, from the left.
pub fn replace_text(s: &str, pattern: &str, replacement: &str) -> (res: String)
    requires
        pattern@.len() > 0,
    ensures
        res@ == replace_all(s@, pattern@, replacement@),
{
    let n = s.unicode_len();
    let m = pattern.unicode_len();
    let mut out = String::new();
    let mut i: usize = 0;
    assert(s@.skip(0) =~= s@);
    while i < n
        invariant
            i <= n,
            n == s@.len(),
            m == pattern@.len(),
            m > 0,
            out@ + replace_all(s@.skip(i as int), pattern@, replacement@) == replace_all(
                s@,
                pattern@,
                replacement@,
            ),
        decreases n - i,
    {
        let ghost rest = s@.skip(i as int);
        let ghost before = out@;
        if m <= n - i && same_text(s.substring_char(i, i + m), pattern) {
            assert(rest.take(m as int) =~= s@.subrange(i as int, i + m));
            assert(rest.skip(m as int) =~= s@.skip(i + m));
            out.append(replacement);
            assert(replace_all(rest, pattern@, replacement@) == replacement@ + replace_all(
                rest.skip(m as int),
                pattern@,
                replacement@,
            ));
            assert(out@ + replace_all(s@.skip(i + m), pattern@, replacement@) =~= before
                + replace_all(rest, pattern@, replacement@));
            i = i + m;
        } else {
            let one = s.substring_char(i, i + 1);
            assert(one@ =~= seq![s@[i as int]]);
            assert(rest[0] == s@[i as int]);
            assert(rest.drop_first() =~= s@.skip(i + 1));
            if m <= n - i {
                assert(rest.take(m as int) =~= s@.subrange(i as int, i + m));
            } else {
                assert(s@.skip(i + 1).len() < m);
                assert(replace_all(rest, pattern@, replacement@) == rest);
                assert(replace_all(s@.skip(i + 1), pattern@, replacement@) == s@.skip(i + 1));
            }
            assert(replace_all(rest, pattern@, replacement@) == seq![s@[i as int]] + replace_all(
                s@.skip(i + 1),
                pattern@,
                replacement@,
            ));
            out.append(one);
            assert(out@ + replace_all(s@.skip(i + 1), pattern@, replacement@) =~= before
                + replace_all(rest, pattern@, replacement@));
            i = i + 1;
        }
    }
    assert(s@.skip(n as int) =~= Seq::<char>::empty());
    out
}

/// The pieces joined by line breaks.
pub open spec fn join_lines(pieces: Seq<Seq<char>>) -> Seq<char>
    decreases pieces.len(),
{
    if pieces.len() == 0 {
        Seq::empty()
    } else if pieces.len() == 1 {
        pieces[0]
    } else {
        join_lines(pieces.drop_last()) + "\n"@ + pieces.last()
    }
}

fn join_with_lines(pieces: &Vec<String>) -> (res: String)
    ensures
        res@ == join_lines(views(pieces@)),
{
    let ghost v = views(pieces@);
    let mut out = String::new();
    let mut i: usize = 0;
    assert(v.take(0) =~= Seq::<Seq<char>>::empty());
    while i < pieces.len()
        invariant
            v == views(pieces@),
            i <= pieces.len(),
            out@ == join_lines(v.take(i as int)),
        decreases pieces.len() - i,
    {
        if i > 0 {
            out.append("\n");
        }
        out.append(pieces[i].as_str());
        assert(v.take(i + 1).drop_last() =~= v.take(i as int));
        assert(v[i as int] == pieces[i as int]@);
        if i == 0 {
            assert(v.take(1) =~= seq![v[0]]);
        }
        i = i + 1;
    }
    assert(v.take(i as int) =~= v);
    out
}

/// A reduced form laid out for the cross-check: unresolved structure with its fragment
/// on a line of its own, any other form one term per line.
pub open spec fn cross_check_layout(content: Seq<char>) -> Seq<char> {
    if content.len() >= 10 && content.take(10) == "HigherRDM("@ {
        replace_all(content, ", fragment="@, ",\nfragment="@)
    } else {
        join_lines(sum_terms(content))
    }
}

/// Lays out a reduced form for the cross-check.
pub fn format_cross_check_expression(content: &str) -> (res: String)
    ensures
        res@ == cross_check_layout(content@),
{
    proof {
        reveal_strlit("HigherRDM(");
        reveal_strlit(", fragment=");
    }
    let n = content.unicode_len();
    if n >= 10 && same_text(content.substring_char(0, 10), "HigherRDM(") {
        return replace_text(content, ", fragment=", ",\nfragment=");
    }
    let parts = split_sum_terms(content);
    join_with_lines(&parts)
}

// ---------------------------------------------------------------------------
// The generator that picks samples
// ---------------------------------------------------------------------------
/// One step of the generator: the state times 6364136223846793005, plus one, modulo
/// 2^64.
pub open spec fn lcg_step(state: u64) -> u64 {
    (((state as nat * 6364136223846793005nat) % 0x1_0000_0000_0000_0000nat + 1) % 0x1_0000_0000_0000_0000nat) as u64
}

/// A linear congruential generator with 64 bits of state.
pub struct Lcg {
    state: u64,
}

impl View for Lcg {
    type V = u64;

    closed spec fn view(&self) -> u64 {
        self.state
    }
}

impl Lcg {
    pub fn new(seed: u64) -> (res: Self)
        ensures
            res@ == seed,
    {
        Lcg { state: seed }
    }

    /// Advances the state one step and returns its upper 32 bits modulo `modulo`.
    pub fn next_usize(&mut self, modulo: usize) -> (res: usize)
        requires
            modulo > 0,
        ensures
            final(self)@ == lcg_step(old(self)@),
            res as nat == (lcg_step(old(self)@) as nat / 0x1_0000_0000nat) % (modulo as nat),
    {
        let product = self.state.wrapping_mul(6364136223846793005);
        let next = product.wrapping_add(1);
        assert(product as nat == (self.state as nat * 6364136223846793005nat) % 0x1_0000_0000_0000_0000nat);
        assert(next == lcg_step(self.state));
        self.state = next;
        let high = next >> 32;
        assert(high == next / 0x1_0000_0000 && high < 0x1_0000_0000) by (bit_vector)
            requires
                high == next >> 32,
        ;
        (high as usize) % modulo
    }
}

// ---------------------------------------------------------------------------
// Sample expressions
// ---------------------------------------------------------------------------
/// An expression that a sample reduces.
pub enum SampleExpr {
    Expectation(Expectation),
    MatrixElement(MatrixElement),
}

/// A sample: its category, the expression as written, and the expression.
pub struct SampleCase {
    pub category: &'static str,
    pub input: &'static str,
    pub expr: SampleExpr,
}

impl SampleCase {
    /// The sample reduced in the reference state, as text, or why it cannot be reduced.
    pub fn output(&self) -> (res: Result<String, TensorSimplifyError>)
        requires
            input_fits(sample_expr_view(self.expr)),
        ensures
            match input_form(sample_expr_view(self.expr)) {
                Ok(f) => res is Ok && res->Ok_0@ == render_tensor(f),
                Err(e) => res == Err::<String, TensorSimplifyError>(e),
            },
    {
        let reduced = match &self.expr {
            SampleExpr::Expectation(e) => simplify_tensor_form(e.clone(), SimplifyConfig),
            SampleExpr::MatrixElement(m) => simplify_tensor_form(m.clone(), SimplifyConfig),
        };
        match reduced {
            Ok(form) => Ok(form.to_string()),
            Err(e) => Err(e),
        }
    }
}

/// The expression of a sample as a value.
pub open spec fn sample_expr_view(e: SampleExpr) -> SpecInput {
    match e {
        SampleExpr::Expectation(x) => SpecInput::Expectation(x@),
        SampleExpr::MatrixElement(m) => SpecInput::MatrixElement(m@),
    }
}

/// An operator of the given kind on the index `symbol` of `space`.
pub open spec fn sample_op(kind: FermionOpKind, symbol: Seq<char>, space: IndexSpace) -> SpecOp {
    SpecOp { kind, index: SpecIndex { symbol, space } }
}

/// The category, written form and expression of each sample; every choice from six on
/// gives the last one.
pub open spec fn sample_spec(choice: int) -> (Seq<char>, Seq<char>, SpecInput) {
    let cr = FermionOpKind::Create;
    let an = FermionOpKind::Annihilate;
    let c = IndexSpace::Core;
    let a = IndexSpace::Active;
    let v = IndexSpace::Virtual;
    if choice == 0 {
        (
            "one-body"@,
            "⟨Ψ_CAS| a†(i) a(j) |Ψ_CAS⟩"@,
            SpecInput::Expectation(seq![sample_op(cr, "i"@, c), sample_op(an, "j"@, c)]),
        )
    } else if choice == 1 {
        (
            "one-body"@,
            "⟨Ψ_CAS| a†(u) a(v) |Ψ_CAS⟩"@,
            SpecInput::Expectation(seq![sample_op(cr, "u"@, a), sample_op(an, "v"@, a)]),
        )
    } else if choice == 2 {
        (
            "one-body"@,
            "⟨Ψ_CAS| a†(u) a(a) |Ψ_CAS⟩"@,
            SpecInput::Expectation(seq![sample_op(cr, "u"@, a), sample_op(an, "a"@, v)]),
        )
    } else if choice == 3 {
        (
            "two-body"@,
            "⟨Ψ_CAS| a†(i) a†(u) a(j) a(v) |Ψ_CAS⟩"@,
            SpecInput::Expectation(
                seq![
                    sample_op(cr, "i"@, c),
                    sample_op(cr, "u"@, a),
                    sample_op(an, "j"@, c),
                    sample_op(an, "v"@, a),
                ],
            ),
        )
    } else if choice == 4 {
        (
            "two-body"@,
            "⟨Ψ_CAS| a†(i) a†(j) a(k) a(l) |Ψ_CAS⟩"@,
            SpecInput::Expectation(
                seq![
                    sample_op(cr, "i"@, c),
                    sample_op(cr, "j"@, c),
                    sample_op(an, "k"@, c),
                    sample_op(an, "l"@, c),
                ],
            ),
        )
    } else if choice == 5 {
        (
            "matrix-element"@,
            "⟨Ψ_CAS| a†(u)a(a) a†(b)a(v) |Ψ_CAS⟩"@,
            SpecInput::MatrixElement(
                SpecMatrixElement {
                    left: seq![sample_op(cr, "u"@, a), sample_op(an, "a"@, v)],
                    hamiltonian: None,
                    right: seq![sample_op(cr, "b"@, v), sample_op(an, "v"@, a)],
                },
            ),
        )
    } else {
        (
            "matrix-element"@,
            "⟨Ψ_CAS| a†(u)a(a) (a†(x)a(y)) a†(b)a(v) |Ψ_CAS⟩"@,
            SpecInput::MatrixElement(
                SpecMatrixElement {
                    left: seq![sample_op(cr, "u"@, a), sample_op(an, "a"@, v)],
                    hamiltonian: Some(seq![sample_op(cr, "x"@, a), sample_op(an, "y"@, a)]),
                    right: seq![sample_op(cr, "b"@, v), sample_op(an, "v"@, a)],
                },
            ),
        )
    }
}

fn pair(x: FermionOp, y: FermionOp) -> (res: crate::ast::OperatorProduct)
    ensures
        res@ == seq![x@, y@],
{
    let ops = vec![x, y];
    assert(views(ops@) =~= seq![ops@[0]@, ops@[1]@]);
    operator_string(ops)
}

fn quad(w: FermionOp, x: FermionOp, y: FermionOp, z: FermionOp) -> (res: crate::ast::OperatorProduct)
    ensures
        res@ == seq![w@, x@, y@, z@],
{
    let ops = vec![w, x, y, z];
    assert(views(ops@) =~= seq![ops@[0]@, ops@[1]@, ops@[2]@, ops@[3]@]);
    operator_string(ops)
}

/// The sample that `choice` picks.
pub fn sampled_case(choice: usize) -> (res: SampleCase)
    ensures
        (res.category@, res.input@, sample_expr_view(res.expr)) == sample_spec(choice as int),
{
    match choice {
        0 => SampleCase {
            category: "one-body",
            input: "⟨Ψ_CAS| a†(i) a(j) |Ψ_CAS⟩",
            expr: SampleExpr::Expectation(
                expectation(pair(create(core_("i")), annihilate(core_("j"))), CasReference::new()),
            ),
        },
        1 => SampleCase {
            category: "one-body",
            input: "⟨Ψ_CAS| a†(u) a(v) |Ψ_CAS⟩",
            expr: SampleExpr::Expectation(
                expectation(pair(create(active("u")), annihilate(active("v"))), CasReference::new()),
            ),
        },
        2 => SampleCase {
            category: "one-body",
            input: "⟨Ψ_CAS| a†(u) a(a) |Ψ_CAS⟩",
            expr: SampleExpr::Expectation(
                expectation(pair(create(active("u")), annihilate(virtual_("a"))), CasReference::new()),
            ),
        },
        3 => SampleCase {
            category: "two-body",
            input: "⟨Ψ_CAS| a†(i) a†(u) a(j) a(v) |Ψ_CAS⟩",
            expr: SampleExpr::Expectation(
                expectation(
                    quad(
                        create(core_("i")),
                        create(active("u")),
                        annihilate(core_("j")),
                        annihilate(active("v")),
                    ),
                    CasReference::new(),
                ),
            ),
        },
        4 => SampleCase {
            category: "two-body",
            input: "⟨Ψ_CAS| a†(i) a†(j) a(k) a(l) |Ψ_CAS⟩",
            expr: SampleExpr::Expectation(
                expectation(
                    quad(
                        create(core_("i")),
                        create(core_("j")),
                        annihilate(core_("k")),
                        annihilate(core_("l")),
                    ),
                    CasReference::new(),
                ),
            ),
        },
        5 => SampleCase {
            category: "matrix-element",
            input: "⟨Ψ_CAS| a†(u)a(a) a†(b)a(v) |Ψ_CAS⟩",
            expr: SampleExpr::MatrixElement(
                matrix_element(
                    pair(create(active("u")), annihilate(virtual_("a"))),
                    None,
                    pair(create(virtual_("b")), annihilate(active("v"))),
                    CasReference::new(),
                ),
            ),
        },
        _ => SampleCase {
            category: "matrix-element",
            input: "⟨Ψ_CAS| a†(u)a(a) (a†(x)a(y)) a†(b)a(v) |Ψ_CAS⟩",
            expr: SampleExpr::MatrixElement(
                matrix_element(
                    pair(create(active("u")), annihilate(virtual_("a"))),
                    Some(pair(create(active("x")), annihilate(active("y")))),
                    pair(create(virtual_("b")), annihilate(active("v"))),
                    CasReference::new(),
                ),
            ),
        },
    }
}

} // verus!
