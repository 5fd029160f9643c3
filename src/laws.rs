//! Laws of scanning, proved over the model that the lexer's contracts use.
use vstd::prelude::*;

use crate::model::{
    byte_offset, compound_op, digit_run, lemma_offset_grows, word_run, is_blank, is_leader, is_punct, is_reserved, lex, punct_op, scan,
    single_op, step, word_kind, KindView, Step, TokenView,
};

verus! {

/// The kinds of a sequence of tokens, in order.
pub open spec fn kinds_of(ts: Seq<TokenView>) -> Seq<KindView> {
    ts.map_values(|t: TokenView| t.kind)
}

/// The operator kind of each punctuation character of `t`, in order; other
/// characters contribute nothing.
pub open spec fn punct_kinds(t: Seq<char>) -> Seq<KindView>
    decreases t.len(),
{
    if t.len() == 0 {
        Seq::empty()
    } else if is_punct(t[0]) {
        seq![KindView::Operator(punct_op(t[0]))] + punct_kinds(t.drop_first())
    } else {
        punct_kinds(t.drop_first())
    }
}

/// Every character of `s` is punctuation, a blank or a newline.
pub open spec fn punctuation_only(s: Seq<char>) -> bool {
    forall|k: int| 0 <= k < s.len() ==> is_punct(#[trigger] s[k]) || is_blank(s[k]) || s[k] == '\n'
}

/// No token in `ts` is an identifier with a reserved spelling.
pub open spec fn no_reserved_id(ts: Seq<TokenView>) -> bool {
    forall|k: int|
        0 <= k < ts.len() && (#[trigger] ts[k]).kind is Id ==> !is_reserved(ts[k].kind->Id_0)
}

proof fn lemma_scan_punctuation(s: Seq<char>, i: nat, line: nat, ls: nat, acc: Seq<TokenView>)
    requires
        punctuation_only(s),
        i <= s.len(),
    ensures
        scan(s, i, line, ls, acc) is Ok,
        kinds_of(scan(s, i, line, ls, acc)->Ok_0) == kinds_of(acc) + punct_kinds(
            s.subrange(i as int, s.len() as int),
        ),
    decreases s.len() - i,
{
    let rest = s.subrange(i as int, s.len() as int);
    if i == s.len() {
        assert(rest.len() == 0);
        assert(kinds_of(acc) + punct_kinds(rest) =~= kinds_of(acc));
    } else {
        assert(rest.drop_first() =~= s.subrange(i as int + 1, s.len() as int));
        let c = s[i as int];
        assert(is_punct(c) || is_blank(c) || c == '\n');
        match step(s, i, line, ls) {
            Step::Emit(t, j) => {
                lemma_scan_punctuation(s, j, line, ls, acc.push(t));
                assert(kinds_of(acc.push(t)) =~= kinds_of(acc).push(t.kind));
                assert(kinds_of(acc).push(t.kind) + punct_kinds(s.subrange(i as int + 1, s.len() as int))
                    =~= kinds_of(acc) + punct_kinds(rest));
            },
            Step::Skip => {
                lemma_scan_punctuation(s, i + 1, line, ls, acc);
            },
            Step::Newline => {
                lemma_scan_punctuation(s, i + 1, line + 1, byte_offset(s, i + 1), acc);
            },
            Step::Fail(e) => {},
        }
    }
}

/// Input made of punctuation, blanks and newlines scans without error into
/// one token per punctuation character, in order, each of the operator kind
/// that the character stands for.
pub proof fn lemma_punctuation_tokens(s: Seq<char>)
    requires
        punctuation_only(s),
    ensures
        lex(s) is Ok,
        lex(s)->Ok_0.len() == punct_kinds(s).len(),
        kinds_of(lex(s)->Ok_0) == punct_kinds(s),
{
    lemma_scan_punctuation(s, 0, 1, 0, Seq::empty());
    assert(s.subrange(0, s.len() as int) =~= s);
    assert(kinds_of(Seq::empty()) + punct_kinds(s) =~= punct_kinds(s));
}

/// Scanning depends on the input alone: the same text always scans to the
/// same tokens, or the same error.
pub proof fn lemma_scan_is_deterministic(a: Seq<char>, b: Seq<char>)
    requires
        a == b,
    ensures
        lex(a) == lex(b),
{
}

/// An operator leader alone scans as its single form; followed by `=` it
/// scans as its compound form.
pub proof fn lemma_compound_operators(c: char)
    requires
        is_leader(c),
    ensures
        lex(seq![c]) is Ok,
        lex(seq![c])->Ok_0.len() == 1,
        lex(seq![c])->Ok_0[0].kind == KindView::Operator(single_op(c)),
        lex(seq![c, '=']) is Ok,
        lex(seq![c, '='])->Ok_0.len() == 1,
        lex(seq![c, '='])->Ok_0[0].kind == KindView::Operator(compound_op(c)),
{
    reveal_with_fuel(scan, 2);
}

/// The spellings `true` and `false` are the boolean literals, and every
/// other reserved spelling is a keyword.
pub proof fn lemma_reserved_spellings(w: Seq<char>)
    ensures
        word_kind("true"@) == KindView::Bool(true),
        word_kind("false"@) == KindView::Bool(false),
        is_reserved(w) && w != "true"@ && w != "false"@ ==> word_kind(w) is Keyword,
{
    reveal_strlit("const");
    reveal_strlit("void");
    reveal_strlit("bool");
    reveal_strlit("true");
    reveal_strlit("false");
    assert("true"@[0] != "const"@[0] && "true"@[0] != "void"@[0] && "true"@[0] != "bool"@[0]);
    assert("false"@[0] != "const"@[0] && "false"@[0] != "void"@[0] && "false"@[0] != "bool"@[0]);
    assert("false"@[0] != "true"@[0]);
}

proof fn lemma_scan_no_reserved_id(s: Seq<char>, i: nat, line: nat, ls: nat, acc: Seq<TokenView>)
    requires
        no_reserved_id(acc),
    ensures
        scan(s, i, line, ls, acc) is Ok ==> no_reserved_id(scan(s, i, line, ls, acc)->Ok_0),
    decreases s.len() - i,
{
    if i < s.len() {
        match step(s, i, line, ls) {
            Step::Emit(t, j) => {
                assert(no_reserved_id(acc.push(t))) by {
                    assert forall|k: int|
                        0 <= k < acc.push(t).len() && (#[trigger] acc.push(t)[k]).kind is Id implies !is_reserved(
                        acc.push(t)[k].kind->Id_0,
                    ) by {
                        if k < acc.len() {
                            assert(acc.push(t)[k] == acc[k]);
                        }
                    }
                }
                if j <= s.len() {
                    lemma_scan_no_reserved_id(s, j, line, ls, acc.push(t));
                }
            },
            Step::Skip => {
                lemma_scan_no_reserved_id(s, i + 1, line, ls, acc);
            },
            Step::Newline => {
                lemma_scan_no_reserved_id(s, i + 1, line + 1, byte_offset(s, i + 1), acc);
            },
            Step::Fail(e) => {},
        }
    }
}

/// A reserved spelling never comes out as an identifier: every identifier
/// token of a successful scan holds a spelling that is not reserved.
pub proof fn lemma_no_reserved_identifiers(s: Seq<char>)
    ensures
        lex(s) is Ok ==> no_reserved_id(lex(s)->Ok_0),
{
    lemma_scan_no_reserved_id(s, 0, 1, 0, Seq::empty());
}

/// The span covers at least one byte of one line.
pub open spec fn proper_span(t: TokenView) -> bool {
    &&& t.span.start.line == t.span.end.line
    &&& t.span.start.col < t.span.end.col
}

proof fn lemma_digit_run_fits(s: Seq<char>, k: nat)
    requires
        k <= s.len(),
    ensures
        k + digit_run(s, k) <= s.len(),
    decreases s.len() - k,
{
    if k < s.len() {
        lemma_digit_run_fits(s, k + 1);
    }
}

proof fn lemma_word_run_fits(s: Seq<char>, k: nat)
    requires
        k <= s.len(),
    ensures
        k + word_run(s, k) <= s.len(),
    decreases s.len() - k,
{
    if k < s.len() {
        lemma_word_run_fits(s, k + 1);
    }
}

/// A token that one step emits ends within the input, after the step's
/// start, and has a proper span.
proof fn lemma_step_emits_proper_span(s: Seq<char>, i: nat, line: nat, ls: nat)
    requires
        i < s.len(),
        ls <= byte_offset(s, i),
        byte_offset(s, s.len()) <= usize::MAX,
    ensures
        step(s, i, line, ls) matches Step::Emit(t, j) ==> i < j <= s.len() && proper_span(t),
{
    lemma_digit_run_fits(s, i + 1);
    lemma_word_run_fits(s, i + 1);
    let d = i + 1 + digit_run(s, i + 1);
    if d < s.len() {
        lemma_digit_run_fits(s, d + 1);
    }
    if let Step::Emit(t, j) = step(s, i, line, ls) {
        let c = s[i as int];
        if c == '\'' {
            lemma_offset_grows(s, i, i + 1);
            lemma_offset_grows(s, i + 1, i + 2);
            lemma_offset_grows(s, i + 2, s.len());
        } else {
            lemma_offset_grows(s, i, j);
            lemma_offset_grows(s, j, s.len());
        }
    }
}

proof fn lemma_scan_proper_spans(s: Seq<char>, i: nat, line: nat, ls: nat, acc: Seq<TokenView>)
    requires
        i <= s.len(),
        ls <= byte_offset(s, i),
        byte_offset(s, s.len()) <= usize::MAX,
        forall|k: int| 0 <= k < acc.len() ==> proper_span(#[trigger] acc[k]),
    ensures
        scan(s, i, line, ls, acc) is Ok ==> forall|k: int|
            0 <= k < scan(s, i, line, ls, acc)->Ok_0.len() ==> proper_span(
                #[trigger] scan(s, i, line, ls, acc)->Ok_0[k],
            ),
    decreases s.len() - i,
{
    if i < s.len() {
        lemma_step_emits_proper_span(s, i, line, ls);
        match step(s, i, line, ls) {
            Step::Emit(t, j) => {
                lemma_offset_grows(s, i, j);
                assert forall|k: int| 0 <= k < acc.push(t).len() implies proper_span(
                    #[trigger] acc.push(t)[k],
                ) by {
                    if k < acc.len() {
                        assert(acc.push(t)[k] == acc[k]);
                    }
                }
                lemma_scan_proper_spans(s, j, line, ls, acc.push(t));
            },
            Step::Skip => {
                lemma_offset_grows(s, i, i + 1);
                lemma_scan_proper_spans(s, i + 1, line, ls, acc);
            },
            Step::Newline => {
                lemma_scan_proper_spans(s, i + 1, line + 1, byte_offset(s, i + 1), acc);
            },
            Step::Fail(e) => {},
        }
    }
}

/// Every token of a successful scan lies on one line and covers at least
/// one byte: its end column is past its start column. The condition is the
/// one every text meets, that its UTF-8 length fits in `usize`.
pub proof fn lemma_token_spans_are_proper(s: Seq<char>)
    requires
        byte_offset(s, s.len()) <= usize::MAX,
    ensures
        lex(s) is Ok ==> forall|k: int|
            0 <= k < lex(s)->Ok_0.len() ==> proper_span(#[trigger] lex(s)->Ok_0[k]),
{
    lemma_scan_proper_spans(s, 0, 1, 0, Seq::empty());
}

} // verus!
