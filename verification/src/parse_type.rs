//! Parsing types and paths.
//!
//! The grammar is stated as spec functions over the token sequence: each
//! takes a position and gives the node it parses there with the position
//! after it, or `None`. Alternatives are tried in order and the first that
//! succeeds is taken; repetitions are greedy. The executable parser mirrors
//! the spec functions and each of its functions returns exactly what its
//! spec counterpart describes.
//!
//! ```text
//! type     := ("[" integer "]")* ("*" ["const"])* path
//! path     := "self" ("." segment)* | segment ("." segment)*
//! segment  := ident ["[" type ("," type)* [","] "]"]
//! ```
use vstd::prelude::*;

use crate::ast::{
    path_model, segment_model, segments_model, type_model, types_model, Ident, PathExpr, PathModel,
    Segment, SegmentModel, Type, TypeModel,
};
use crate::token::{tokens_model, Token, TokenKind, TokenModel};

verus! {

broadcast use {vstd::seq::group_seq_axioms, vstd::std_specs::vec::group_vec_axioms};

/// The kind of the token at `p`, if there is one.
pub open spec fn kind_at(t: Seq<TokenModel>, p: int) -> Option<TokenKind> {
    if 0 <= p < t.len() {
        Some(t[p].kind)
    } else {
        None
    }
}

/// Whether the token at `p` has kind `k`.
pub open spec fn is_at(t: Seq<TokenModel>, p: int, k: TokenKind) -> bool {
    kind_at(t, p) == Some(k)
}

/// A parse result with its node replaced by the node's model.
pub open spec fn lifted<A, M>(r: Option<(A, usize)>, m: spec_fn(A) -> M) -> Option<(M, int)> {
    match r {
        Some((a, q)) => Some((m(a), q as int)),
        None => None,
    }
}

/// Whether every character is a decimal digit.
pub open spec fn all_digits(s: Seq<char>) -> bool {
    forall|i: int| 0 <= i < s.len() ==> '0' <= #[trigger] s[i] && s[i] <= '9'
}

/// The number that the digits of `s` spell.
pub open spec fn digits_value(s: Seq<char>) -> nat
    decreases s.len(),
{
    if s.len() == 0 {
        0
    } else {
        digits_value(s.drop_last()) * 10 + ((s.last() as u32 - '0' as u32) as nat)
    }
}

/// A digit character stands for the digit it is written as.
proof fn lemma_digit_char_value(d: nat)
    requires
        d < 10,
    ensures
        '0' <= crate::text::digit_char(d) <= '9',
        (crate::text::digit_char(d) as u32 - '0' as u32) as nat == d,
{
}

/// Reading back the decimal text of a number gives the number: the digits
/// that `decimal` writes are the base-ten digits of `n`.
pub proof fn law_decimal_reads_back(n: nat)
    ensures
        crate::text::decimal(n).len() > 0,
        all_digits(crate::text::decimal(n)),
        digits_value(crate::text::decimal(n)) == n,
    decreases n,
{
    let t = crate::text::decimal(n);
    if n < 10 {
        lemma_digit_char_value(n);
        assert(t.drop_last() =~= Seq::<char>::empty());
        assert(digits_value(t.drop_last()) == 0);
        assert(t.last() == crate::text::digit_char(n));
        assert(digits_value(t) == digits_value(t.drop_last()) * 10 + ((t.last() as u32 - '0' as u32) as nat));
    } else {
        law_decimal_reads_back(n / 10);
        lemma_digit_char_value(n % 10);
        let d = crate::text::decimal(n / 10);
        assert(t.drop_last() =~= d);
        assert(t.last() == crate::text::digit_char(n % 10));
        assert(forall|i: int| 0 <= i < t.len() ==> '0' <= #[trigger] t[i] && t[i] <= '9') by {
            assert forall|i: int| 0 <= i < t.len() implies '0' <= #[trigger] t[i] && t[i] <= '9' by {
                if i < d.len() {
                    assert(t[i] == d[i]);
                }
            }
        }
        assert(digits_value(t) == digits_value(t.drop_last()) * 10 + ((t.last() as u32 - '0' as u32) as nat));
        assert((n / 10) * 10 + n % 10 == n) by (nonlinear_arith);
    }
}

/// The array size an integer literal denotes: its digits read in base ten,
/// when it is made of digits only and the value fits a `usize`.
pub open spec fn array_size(s: Seq<char>) -> Option<usize> {
    if s.len() > 0 && all_digits(s) && digits_value(s) <= usize::MAX {
        Some(digits_value(s) as usize)
    } else {
        None
    }
}

/// The sizes of the leading `[N]` groups at `p`, and the position after them.
pub open spec fn array_dims(t: Seq<TokenModel>, p: int) -> (Seq<usize>, int)
    decreases t.len() - p,
{
    if 0 <= p && p + 2 < t.len() && is_at(t, p, TokenKind::LeftBracket) && is_at(
        t,
        p + 1,
        TokenKind::Integer,
    ) && array_size(t[p + 1].lexeme) is Some && is_at(t, p + 2, TokenKind::RightBracket) {
        let rest = array_dims(t, p + 3);
        (seq![array_size(t[p + 1].lexeme).unwrap()] + rest.0, rest.1)
    } else {
        (seq![], p)
    }
}

/// The pointer marks at `p` (`true` for `*const`), and the position after them.
pub open spec fn ptr_marks(t: Seq<TokenModel>, p: int) -> (Seq<bool>, int)
    decreases t.len() - p,
{
    if 0 <= p < t.len() && is_at(t, p, TokenKind::Asterisk) {
        if is_at(t, p + 1, TokenKind::Const) {
            let rest = ptr_marks(t, p + 2);
            (seq![true] + rest.0, rest.1)
        } else {
            let rest = ptr_marks(t, p + 1);
            (seq![false] + rest.0, rest.1)
        }
    } else {
        (seq![], p)
    }
}

/// `inner` under the pointer marks, the first mark outermost.
pub open spec fn wrap_ptrs(marks: Seq<bool>, inner: TypeModel) -> TypeModel
    decreases marks.len(),
{
    if marks.len() == 0 {
        inner
    } else {
        let w = wrap_ptrs(marks.drop_first(), inner);
        if marks[0] {
            TypeModel::ConstPtr(Box::new(w))
        } else {
            TypeModel::Ptr(Box::new(w))
        }
    }
}

/// `inner` under the array sizes, the first size outermost.
pub open spec fn wrap_dims(dims: Seq<usize>, inner: TypeModel) -> TypeModel
    decreases dims.len(),
{
    if dims.len() == 0 {
        inner
    } else {
        TypeModel::Array(dims[0], Box::new(wrap_dims(dims.drop_first(), inner)))
    }
}

/// `type` at `p`.
pub open spec fn spec_type(t: Seq<TokenModel>, p: int) -> Option<(TypeModel, int)>
    decreases t.len() - p, 4int,
{
    let (dims, q) = array_dims(t, p);
    let (marks, r) = ptr_marks(t, q);
    if p <= r <= t.len() {
        match spec_path(t, r) {
            Some((path, e)) => Some((wrap_dims(dims, wrap_ptrs(marks, TypeModel::Path(path))), e)),
            None => None,
        }
    } else {
        None
    }
}

/// `*const T` is a constant pointer to `T` and `*T` a mutable pointer to
/// `T`: a `*` followed by `const` gives `ConstPtr`, a `*` followed by
/// anything else gives `Ptr`, in both cases around the type after them.
pub proof fn law_pointer_types_follow_const(t: Seq<TokenModel>, p: int)
    requires
        0 <= p,
        p + 1 < t.len(),
        is_at(t, p, TokenKind::Asterisk),
    ensures
        is_at(t, p + 1, TokenKind::Const) && !is_at(t, p + 2, TokenKind::LeftBracket) ==> (spec_type(t, p + 2) matches Some(
            (m, e),
        ) ==> spec_type(t, p) == Some((TypeModel::ConstPtr(Box::new(m)), e))),
        !is_at(t, p + 1, TokenKind::Const) && !is_at(t, p + 1, TokenKind::LeftBracket) ==> (spec_type(t, p + 1) matches Some(
            (m, e),
        ) ==> spec_type(t, p) == Some((TypeModel::Ptr(Box::new(m)), e))),
{
    assert(array_dims(t, p) == (Seq::<usize>::empty(), p));
    if is_at(t, p + 1, TokenKind::Const) {
        if !is_at(t, p + 2, TokenKind::LeftBracket) {
            assert(array_dims(t, p + 2) == (Seq::<usize>::empty(), p + 2));
        }
        let rest = ptr_marks(t, p + 2);
        assert(ptr_marks(t, p) == (seq![true] + rest.0, rest.1));
        assert((seq![true] + rest.0).drop_first() =~= rest.0);
        lemma_ptr_marks_bounds(t, p + 2);
    } else {
        if !is_at(t, p + 1, TokenKind::LeftBracket) {
            assert(array_dims(t, p + 1) == (Seq::<usize>::empty(), p + 1));
        }
        let rest = ptr_marks(t, p + 1);
        assert(ptr_marks(t, p) == (seq![false] + rest.0, rest.1));
        assert((seq![false] + rest.0).drop_first() =~= rest.0);
        lemma_ptr_marks_bounds(t, p + 1);
    }
}

proof fn lemma_ptr_marks_bounds(t: Seq<TokenModel>, p: int)
    requires
        0 <= p,
    ensures
        p <= ptr_marks(t, p).1,
        p < t.len() ==> ptr_marks(t, p).1 <= t.len(),
    decreases t.len() - p,
{
    if 0 <= p < t.len() && is_at(t, p, TokenKind::Asterisk) {
        if is_at(t, p + 1, TokenKind::Const) {
            lemma_ptr_marks_bounds(t, p + 2);
        } else {
            lemma_ptr_marks_bounds(t, p + 1);
        }
    }
}

/// `type ("," type)* [","]` at `p`: at least one type.
pub open spec fn spec_type_list(t: Seq<TokenModel>, p: int) -> Option<(Seq<TypeModel>, int)>
    decreases t.len() - p, 5int,
{
    match spec_type(t, p) {
        Some((first, q)) => if p < q <= t.len() {
            Some(spec_type_list_rest(t, q, seq![first]))
        } else {
            None
        },
        None => None,
    }
}

/// `("," type)* [","]` at `p`, appended to `acc`.
pub open spec fn spec_type_list_rest(t: Seq<TokenModel>, p: int, acc: Seq<TypeModel>) -> (Seq<TypeModel>, int)
    decreases t.len() - p, 0int,
{
    if 0 <= p < t.len() && is_at(t, p, TokenKind::Comma) {
        match spec_type(t, p + 1) {
            Some((ty, q)) => if p < q <= t.len() {
                spec_type_list_rest(t, q, acc.push(ty))
            } else {
                (acc, p + 1)
            },
            None => (acc, p + 1),
        }
    } else {
        (acc, p)
    }
}

/// `segment` at `p`.
pub open spec fn spec_segment(t: Seq<TokenModel>, p: int) -> Option<(SegmentModel, int)>
    decreases t.len() - p, 1int,
{
    if 0 <= p < t.len() && is_at(t, p, TokenKind::Ident) {
        let name = t[p].lexeme;
        if is_at(t, p + 1, TokenKind::LeftBracket) {
            match spec_type_list(t, p + 2) {
                Some((generics, q)) => if is_at(t, q, TokenKind::RightBracket) {
                    Some((SegmentModel { name, generics: Some(generics) }, q + 1))
                } else {
                    Some((SegmentModel { name, generics: None }, p + 1))
                },
                None => Some((SegmentModel { name, generics: None }, p + 1)),
            }
        } else {
            Some((SegmentModel { name, generics: None }, p + 1))
        }
    } else {
        None
    }
}

/// `("." segment)*` at `p`, appended to `acc`.
pub open spec fn spec_more_segments(t: Seq<TokenModel>, p: int, acc: Seq<SegmentModel>) -> (Seq<SegmentModel>, int)
    decreases t.len() - p, 0int,
{
    if 0 <= p < t.len() && is_at(t, p, TokenKind::Dot) {
        match spec_segment(t, p + 1) {
            Some((seg, q)) => if p < q <= t.len() {
                spec_more_segments(t, q, acc.push(seg))
            } else {
                (acc, p)
            },
            None => (acc, p),
        }
    } else {
        (acc, p)
    }
}

/// `path` at `p`.
pub open spec fn spec_path(t: Seq<TokenModel>, p: int) -> Option<(PathModel, int)>
    decreases t.len() - p, 3int,
{
    if 0 <= p < t.len() && is_at(t, p, TokenKind::SelfKw) {
        let first = SegmentModel { name: "self"@, generics: None };
        let (segments, q) = spec_more_segments(t, p + 1, seq![first]);
        Some((PathModel { segments }, q))
    } else {
        match spec_segment(t, p) {
            Some((first, q)) => if p < q <= t.len() {
                let (segments, e) = spec_more_segments(t, q, seq![first]);
                Some((PathModel { segments }, e))
            } else {
                None
            },
            None => None,
        }
    }
}

// ----- lemmas on progress -----
proof fn lemma_array_dims(t: Seq<TokenModel>, p: int)
    requires
        0 <= p <= t.len(),
    ensures
        p <= array_dims(t, p).1 <= t.len(),
    decreases t.len() - p,
{
    if 0 <= p && p + 2 < t.len() && is_at(t, p, TokenKind::LeftBracket) && is_at(
        t,
        p + 1,
        TokenKind::Integer,
    ) && array_size(t[p + 1].lexeme) is Some && is_at(t, p + 2, TokenKind::RightBracket) {
        lemma_array_dims(t, p + 3);
    }
}

proof fn lemma_ptr_marks(t: Seq<TokenModel>, p: int)
    requires
        0 <= p <= t.len(),
    ensures
        p <= ptr_marks(t, p).1 <= t.len(),
    decreases t.len() - p,
{
    if 0 <= p < t.len() && is_at(t, p, TokenKind::Asterisk) {
        if is_at(t, p + 1, TokenKind::Const) {
            lemma_ptr_marks(t, p + 2);
        } else {
            lemma_ptr_marks(t, p + 1);
        }
    }
}

// ----- executable parser -----
/// Whether the token at `p` has kind `k`.
pub fn at(toks: &Vec<Token>, p: usize, k: TokenKind) -> (r: bool)
    ensures
        r == is_at(tokens_model(toks@), p as int, k),
        toks@.len() <= usize::MAX,
{
    p < toks.len() && toks[p].kind == k
}

/// The array size that the digits of `s` spell, if they fit a `usize`.
pub fn parse_array_size(s: &String) -> (r: Option<usize>)
    ensures
        r == array_size(s@),
{
    let chars = s.as_str();
    let n = chars.unicode_len();
    if n == 0 {
        return None;
    }
    let mut value: usize = 0;
    let mut i: usize = 0;
    while i < n
        invariant
            n == s@.len(),
            chars@ == s@,
            i <= n,
            all_digits(s@.subrange(0, i as int)),
            value == digits_value(s@.subrange(0, i as int)),
        decreases n - i,
    {
        let c = chars.get_char(i);
        proof {
            assert(s@.subrange(0, i + 1).drop_last() =~= s@.subrange(0, i as int));
        }
        if c < '0' || c > '9' {
            proof {
                assert(!all_digits(s@)) by {
                    assert(s@[i as int] == c);
                }
            }
            return None;
        }
        let d = (c as u32 - '0' as u32) as usize;
        if value > (usize::MAX - d) / 10 {
            proof {
                lemma_digits_value_prefix(s@, i + 1, n as int);
                assert(s@.subrange(0, n as int) =~= s@);
                assert(digits_value(s@.subrange(0, i + 1)) == value * 10 + d);
                assert(value * 10 + d > usize::MAX) by (nonlinear_arith)
                    requires
                        value > (usize::MAX - d) / 10,
                        d <= 9,
                ;
            }
            return None;
        }
        proof {
            assert(value * 10 + d <= usize::MAX) by (nonlinear_arith)
                requires
                    value <= (usize::MAX - d) / 10,
                    d <= 9,
            ;
        }
        value = value * 10 + d;
        i = i + 1;
    }
    assert(s@.subrange(0, n as int) =~= s@);
    Some(value)
}

/// A longer prefix of digits never spells a smaller number.
proof fn lemma_digits_value_prefix(s: Seq<char>, i: int, j: int)
    requires
        0 <= i <= j <= s.len(),
    ensures
        digits_value(s.subrange(0, i)) <= digits_value(s.subrange(0, j)),
    decreases j - i,
{
    if i < j {
        lemma_digits_value_prefix(s, i, j - 1);
        assert(s.subrange(0, j).drop_last() =~= s.subrange(0, j - 1));
    }
}

fn parse_array_dims(toks: &Vec<Token>, p: usize) -> (r: (Vec<usize>, usize))
    requires
        p <= toks@.len(),
    ensures
        (r.0@, r.1 as int) == array_dims(tokens_model(toks@), p as int),
    decreases toks@.len() - p,
{
    if p < toks.len() && toks.len() - p > 2 && at(toks, p, TokenKind::LeftBracket) && at(
        toks,
        p + 1,
        TokenKind::Integer,
    ) && at(toks, p + 2, TokenKind::RightBracket) {
        if let Some(n) = parse_array_size(&toks[p + 1].lexeme) {
            let (rest, q) = parse_array_dims(toks, p + 3);
            let mut dims = Vec::new();
            dims.push(n);
            let mut i: usize = 0;
            while i < rest.len()
                invariant
                    i <= rest@.len(),
                    dims@ == seq![n] + rest@.subrange(0, i as int),
                decreases rest.len() - i,
            {
                dims.push(rest[i]);
                i = i + 1;
                assert(dims@ =~= seq![n] + rest@.subrange(0, i as int));
            }
            assert(rest@.subrange(0, rest@.len() as int) =~= rest@);
            return (dims, q);
        }
    }
    (Vec::new(), p)
}

fn parse_ptr_marks(toks: &Vec<Token>, p: usize) -> (r: (Vec<bool>, usize))
    requires
        p <= toks@.len(),
    ensures
        (r.0@, r.1 as int) == ptr_marks(tokens_model(toks@), p as int),
    decreases toks@.len() - p,
{
    if at(toks, p, TokenKind::Asterisk) {
        let is_const = at(toks, p + 1, TokenKind::Const);
        let (rest, q) = if is_const {
            parse_ptr_marks(toks, p + 2)
        } else {
            parse_ptr_marks(toks, p + 1)
        };
        let mut marks = Vec::new();
        marks.push(is_const);
        let mut i: usize = 0;
        while i < rest.len()
            invariant
                i <= rest@.len(),
                marks@ == seq![is_const] + rest@.subrange(0, i as int),
            decreases rest.len() - i,
        {
            marks.push(rest[i]);
            i = i + 1;
            assert(marks@ =~= seq![is_const] + rest@.subrange(0, i as int));
        }
        assert(rest@.subrange(0, rest@.len() as int) =~= rest@);
        (marks, q)
    } else {
        (Vec::new(), p)
    }
}

fn wrap_ptrs_exec(marks: &Vec<bool>, i: usize, inner: Type) -> (r: Type)
    requires
        i <= marks@.len(),
    ensures
        type_model(r) == wrap_ptrs(marks@.skip(i as int), type_model(inner)),
    decreases marks@.len() - i,
{
    if i >= marks.len() {
        assert(marks@.skip(i as int) =~= Seq::<bool>::empty());
        inner
    } else {
        let w = wrap_ptrs_exec(marks, i + 1, inner);
        assert(marks@.skip(i as int).drop_first() =~= marks@.skip(i + 1));
        if marks[i] {
            Type::ConstPtr(Box::new(w))
        } else {
            Type::Ptr(Box::new(w))
        }
    }
}

fn wrap_dims_exec(dims: &Vec<usize>, i: usize, inner: Type) -> (r: Type)
    requires
        i <= dims@.len(),
    ensures
        type_model(r) == wrap_dims(dims@.skip(i as int), type_model(inner)),
    decreases dims@.len() - i,
{
    if i >= dims.len() {
        assert(dims@.skip(i as int) =~= Seq::<usize>::empty());
        inner
    } else {
        let w = wrap_dims_exec(dims, i + 1, inner);
        assert(dims@.skip(i as int).drop_first() =~= dims@.skip(i + 1));
        Type::Array(dims[i], Box::new(w))
    }
}

/// Parses a `type` at `p`.
pub fn parse_type_at(toks: &Vec<Token>, p: usize) -> (r: Option<(Type, usize)>)
    requires
        p <= toks@.len(),
    ensures
        lifted(r, |x: Type| type_model(x)) == spec_type(tokens_model(toks@), p as int),
        r matches Some((_, q)) ==> p < q <= toks@.len(),
    decreases toks@.len() - p, 4int,
{
    let (dims, q) = parse_array_dims(toks, p);
    proof {
        lemma_array_dims(tokens_model(toks@), p as int);
    }
    let (marks, r) = parse_ptr_marks(toks, q);
    proof {
        lemma_ptr_marks(tokens_model(toks@), q as int);
        assert(dims@.skip(0) =~= dims@);
        assert(marks@.skip(0) =~= marks@);
    }
    match parse_path_at(toks, r) {
        Some((path, e)) => {
            let ty = wrap_dims_exec(&dims, 0, wrap_ptrs_exec(&marks, 0, Type::Path(path)));
            Some((ty, e))
        },
        None => None,
    }
}

/// Parses `type ("," type)* [","]` at `p`.
pub fn parse_type_list(toks: &Vec<Token>, p: usize) -> (r: Option<(Vec<Type>, usize)>)
    requires
        p <= toks@.len(),
    ensures
        lifted(r, |x: Vec<Type>| types_model(x@)) == spec_type_list(tokens_model(toks@), p as int),
        r matches Some((_, q)) ==> p < q <= toks@.len(),
    decreases toks@.len() - p, 5int,
{
    match parse_type_at(toks, p) {
        Some((first, q)) => {
            let mut acc = Vec::new();
            acc.push(first);
            proof {
                assert(acc@.drop_last() =~= Seq::<Type>::empty());
                assert(types_model(Seq::<Type>::empty()) =~= Seq::<TypeModel>::empty());
                assert(types_model(acc@) =~= seq![type_model(acc@[0])]);
            }
            let e = parse_type_list_rest(toks, q, &mut acc);
            Some((acc, e))
        },
        None => None,
    }
}

fn parse_type_list_rest(toks: &Vec<Token>, p: usize, acc: &mut Vec<Type>) -> (e: usize)
    requires
        p <= toks@.len(),
    ensures
        (types_model(final(acc)@), e as int) == spec_type_list_rest(tokens_model(toks@), p as int, types_model(old(acc)@)),
        p <= e <= toks@.len(),
    decreases toks@.len() - p, 0int,
{
    if at(toks, p, TokenKind::Comma) {
        match parse_type_at(toks, p + 1) {
            Some((ty, q)) => {
                let ghost before = acc@;
                acc.push(ty);
                proof {
                    assert(acc@.drop_last() =~= before);
                }
                parse_type_list_rest(toks, q, acc)
            },
            None => p + 1,
        }
    } else {
        p
    }
}

/// Parses a `segment` at `p`.
pub fn parse_segment_at(toks: &Vec<Token>, p: usize) -> (r: Option<(Segment, usize)>)
    requires
        p <= toks@.len(),
    ensures
        lifted(r, |x: Segment| segment_model(x)) == spec_segment(tokens_model(toks@), p as int),
        r matches Some((_, q)) ==> p < q <= toks@.len(),
    decreases toks@.len() - p, 1int,
{
    if at(toks, p, TokenKind::Ident) {
        let name = Ident { name: toks[p].lexeme.clone() };
        if at(toks, p + 1, TokenKind::LeftBracket) {
            match parse_type_list(toks, p + 2) {
                Some((generics, q)) => {
                    if at(toks, q, TokenKind::RightBracket) {
                        return Some((Segment { name, generics: Some(generics) }, q + 1));
                    }
                },
                None => {},
            }
        }
        Some((Segment { name, generics: None }, p + 1))
    } else {
        None
    }
}

fn parse_more_segments(toks: &Vec<Token>, p: usize, acc: &mut Vec<Segment>) -> (e: usize)
    requires
        p <= toks@.len(),
    ensures
        (segments_model(final(acc)@), e as int) == spec_more_segments(tokens_model(toks@), p as int, segments_model(old(acc)@)),
        p <= e <= toks@.len(),
    decreases toks@.len() - p, 0int,
{
    if at(toks, p, TokenKind::Dot) {
        match parse_segment_at(toks, p + 1) {
            Some((seg, q)) => {
                let ghost before = acc@;
                acc.push(seg);
                proof {
                    assert(acc@.drop_last() =~= before);
                }
                parse_more_segments(toks, q, acc)
            },
            None => p,
        }
    } else {
        p
    }
}

/// Parses a `path` at `p`.
pub fn parse_path_at(toks: &Vec<Token>, p: usize) -> (r: Option<(PathExpr, usize)>)
    requires
        p <= toks@.len(),
    ensures
        lifted(r, |x: PathExpr| path_model(x)) == spec_path(tokens_model(toks@), p as int),
        r matches Some((_, q)) ==> p < q <= toks@.len(),
    decreases toks@.len() - p, 3int,
{
    if at(toks, p, TokenKind::SelfKw) {
        let mut segments = Vec::new();
        segments.push(Segment { name: Ident::new("self"), generics: None });
        proof {
            assert(segments@.drop_last() =~= Seq::<Segment>::empty());
            assert(segments_model(Seq::<Segment>::empty()) =~= Seq::<SegmentModel>::empty());
            assert(segments_model(segments@) =~= seq![segment_model(segments@[0])]);
        }
        let e = parse_more_segments(toks, p + 1, &mut segments);
        Some((PathExpr { segments }, e))
    } else {
        match parse_segment_at(toks, p) {
            Some((first, q)) => {
                let mut segments = Vec::new();
                segments.push(first);
                proof {
                    assert(segments@.drop_last() =~= Seq::<Segment>::empty());
                    assert(segments_model(Seq::<Segment>::empty()) =~= Seq::<SegmentModel>::empty());
                    assert(segments_model(segments@) =~= seq![segment_model(segments@[0])]);
                }
                let e = parse_more_segments(toks, q, &mut segments);
                Some((PathExpr { segments }, e))
            },
            None => None,
        }
    }
}

} // verus!
