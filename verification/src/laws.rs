//! General laws of the scan, proved over the model in [`crate::model`].
//!
//! [`Scanner::scan_tokens`](crate::scanner::Scanner::scan_tokens) returns
//! exactly `scan_spec` of its source, so each law carries over to every run
//! of the scanner.

use crate::model::{
    eof_token, is_blank_char, lemma_newline_count_mono, lemma_step_bounds, line_at, scan_from,
    scan_spec, step,
};
use crate::token::{SpecToken, TokenType};
use vstd::prelude::*;

verus! {

/// A character of the single- or double-character token set.
pub open spec fn is_symbol_char(c: char) -> bool {
    ||| c == '('
    ||| c == ')'
    ||| c == '{'
    ||| c == '}'
    ||| c == ','
    ||| c == '.'
    ||| c == '-'
    ||| c == '+'
    ||| c == ';'
    ||| c == '*'
    ||| c == '/'
    ||| c == '!'
    ||| c == '='
    ||| c == '<'
    ||| c == '>'
}

/// Whitespace in the wide sense: what the scanner skips between lexemes.
pub open spec fn is_space_char(c: char) -> bool {
    is_blank_char(c) || c == '\n'
}

/// The concatenation, in order, of the lexemes of `toks`.
pub open spec fn lexemes_of(toks: Seq<SpecToken>) -> Seq<char>
    decreases toks.len(),
{
    if toks.len() == 0 {
        Seq::<char>::empty()
    } else {
        toks[0].lexeme + lexemes_of(toks.drop_first())
    }
}

/// The characters of `s` from index `i` on, with the whitespace removed.
pub open spec fn without_spaces(s: Seq<char>, i: int) -> Seq<char>
    decreases s.len() - i,
{
    if !(0 <= i < s.len()) {
        Seq::<char>::empty()
    } else if is_space_char(s[i]) {
        without_spaces(s, i + 1)
    } else {
        seq![s[i]] + without_spaces(s, i + 1)
    }
}

proof fn lemma_lexemes_of_cons(t: SpecToken, r: Seq<SpecToken>)
    ensures
        lexemes_of(seq![t] + r) == t.lexeme + lexemes_of(r),
{
    let c = seq![t] + r;
    assert(c.len() == 1 + r.len());
    assert(c[0] == t);
    assert(c.drop_first() =~= r);
}

/// Every scan ends in exactly one `EOF` token: the token sequence is
/// nonempty, its last element is `EOF` with an empty lexeme and no literal,
/// standing on the final line reached, and no earlier element is `EOF`.
pub proof fn lemma_scan_ends_in_eof(s: Seq<char>)
    ensures
        scan_spec(s).toks.len() >= 1,
        scan_spec(s).toks.last() == eof_token(s, s.len() as int),
        forall|k: int|
            0 <= k < scan_spec(s).toks.len() - 1 ==> #[trigger] scan_spec(s).toks[k].token_type
                != TokenType::EOF,
{
    lemma_scan_from_ends_in_eof(s, 0);
}

proof fn lemma_scan_from_ends_in_eof(s: Seq<char>, i: int)
    requires
        0 <= i <= s.len(),
    ensures
        scan_from(s, i).toks.len() >= 1,
        scan_from(s, i).toks.last() == eof_token(s, s.len() as int),
        forall|k: int|
            0 <= k < scan_from(s, i).toks.len() - 1 ==> #[trigger] scan_from(s, i).toks[k].token_type
                != TokenType::EOF,
    decreases s.len() - i,
{
    if i >= s.len() {
        assert(i == s.len());
    } else {
        let st = step(s, i);
        lemma_step_bounds(s, i);
        lemma_scan_from_ends_in_eof(s, st.next);
        let rest = scan_from(s, st.next);
        assert(forall|k: int|
            0 <= k < st.toks.len() ==> #[trigger] st.toks[k].token_type != TokenType::EOF);
        assert(scan_from(s, i).toks.last() == rest.toks.last());
    }
}

/// Over source text made only of the recognized single- and double-character
/// token set and whitespace, with no two adjacent slashes (those would open a
/// comment and swallow the rest of the line): the scan reports no error,
/// every token but the final `EOF` carries a nonempty lexeme — so the token
/// sequence is one longer than the list of lexemes — and the lexemes
/// concatenated in order are exactly the source with its whitespace removed.
/// Reinserting the skipped whitespace where it stood therefore reconstructs
/// the source.
pub proof fn lemma_symbols_reconstruct(s: Seq<char>)
    requires
        forall|k: int| 0 <= k < s.len() ==> is_symbol_char(#[trigger] s[k]) || is_space_char(s[k]),
        forall|k: int| 0 <= k && k + 1 < s.len() ==> (#[trigger] s[k]) != '/' || s[k + 1] != '/',
    ensures
        scan_spec(s).errs.len() == 0,
        scan_spec(s).toks.len() >= 1,
        lexemes_of(scan_spec(s).toks) == without_spaces(s, 0),
        forall|k: int|
            0 <= k < scan_spec(s).toks.len() - 1 ==> #[trigger] scan_spec(s).toks[k].lexeme.len()
                > 0,
{
    lemma_symbols_reconstruct_from(s, 0);
}

proof fn lemma_symbols_reconstruct_from(s: Seq<char>, i: int)
    requires
        0 <= i <= s.len(),
        forall|k: int| 0 <= k < s.len() ==> is_symbol_char(#[trigger] s[k]) || is_space_char(s[k]),
        forall|k: int| 0 <= k && k + 1 < s.len() ==> (#[trigger] s[k]) != '/' || s[k + 1] != '/',
    ensures
        scan_from(s, i).errs.len() == 0,
        scan_from(s, i).toks.len() >= 1,
        lexemes_of(scan_from(s, i).toks) == without_spaces(s, i),
        forall|k: int|
            0 <= k < scan_from(s, i).toks.len() - 1 ==> #[trigger] scan_from(
                s,
                i,
            ).toks[k].lexeme.len() > 0,
    decreases s.len() - i,
{
    if i >= s.len() {
        let toks = scan_from(s, i).toks;
        assert(toks =~= seq![eof_token(s, i)]);
        assert(toks.drop_first() =~= Seq::<SpecToken>::empty());
        assert(lexemes_of(Seq::<SpecToken>::empty()) == Seq::<char>::empty());
        assert(lexemes_of(toks) == toks[0].lexeme + lexemes_of(toks.drop_first()));
        assert(lexemes_of(toks) =~= Seq::<char>::empty());
    } else {
        let c = s[i];
        let st = step(s, i);
        lemma_step_bounds(s, i);
        lemma_symbols_reconstruct_from(s, st.next);
        let rest = scan_from(s, st.next);
        let out = scan_from(s, i);
        assert(is_symbol_char(c) || is_space_char(c));
        if is_space_char(c) {
            assert(st.toks =~= Seq::<SpecToken>::empty());
            assert(out.toks =~= rest.toks);
            assert(out.errs =~= rest.errs);
        } else if (c == '!' || c == '=' || c == '<' || c == '>') && i + 1 < s.len() && s[i + 1]
            == '=' {
            let t = st.toks[0];
            assert(st.next == i + 2);
            assert(t.lexeme =~= seq![s[i], s[i + 1]]);
            assert(out.toks =~= seq![t] + rest.toks);
            assert(out.errs =~= rest.errs);
            lemma_lexemes_of_cons(t, rest.toks);
            assert(!is_space_char(s[i]) && !is_space_char(s[i + 1]));
            assert(without_spaces(s, i) == seq![s[i]] + without_spaces(s, i + 1));
            assert(without_spaces(s, i + 1) == seq![s[i + 1]] + without_spaces(s, i + 2));
            assert(lexemes_of(out.toks) =~= without_spaces(s, i));
        } else {
            // A lone symbol character: one single-character token.  Two
            // adjacent slashes are excluded, so `/` lands here as well.
            if c == '/' && i + 1 < s.len() {
                assert(s[i] != '/' || s[i + 1] != '/');
                assert(s[i + 1] != '/');
            }
            let t = st.toks[0];
            assert(st.next == i + 1);
            assert(t.lexeme =~= seq![s[i]]);
            assert(out.toks =~= seq![t] + rest.toks);
            assert(out.errs =~= rest.errs);
            lemma_lexemes_of_cons(t, rest.toks);
            assert(lexemes_of(out.toks) =~= without_spaces(s, i));
        }
    }
}

/// The line number never decreases along the token sequence: tokens come in
/// source order, and the final `EOF` stands on the last line reached.
pub proof fn lemma_lines_nondecreasing(s: Seq<char>)
    ensures
        forall|a: int, b: int|
            0 <= a <= b < scan_spec(s).toks.len() ==> #[trigger] scan_spec(s).toks[a].line
                <= #[trigger] scan_spec(s).toks[b].line,
{
    lemma_scan_from_lines(s, 0);
}

proof fn lemma_scan_from_lines(s: Seq<char>, i: int)
    requires
        0 <= i <= s.len(),
    ensures
        forall|k: int|
            0 <= k < scan_from(s, i).toks.len() ==> line_at(s, i) <= #[trigger] scan_from(
                s,
                i,
            ).toks[k].line,
        forall|a: int, b: int|
            0 <= a <= b < scan_from(s, i).toks.len() ==> #[trigger] scan_from(s, i).toks[a].line
                <= #[trigger] scan_from(s, i).toks[b].line,
    decreases s.len() - i,
{
    if i < s.len() {
        let st = step(s, i);
        lemma_step_bounds(s, i);
        lemma_scan_from_lines(s, st.next);
        lemma_newline_count_mono(s, i, st.next);
        let rest = scan_from(s, st.next);
        let out = scan_from(s, i);
        assert(forall|k: int|
            0 <= k < st.toks.len() ==> #[trigger] st.toks[k].line == line_at(s, i));
        assert forall|k: int| 0 <= k < out.toks.len() implies line_at(s, i)
            <= #[trigger] out.toks[k].line by {
            if k >= st.toks.len() {
                assert(out.toks[k] == rest.toks[k - st.toks.len()]);
            }
        }
        assert forall|a: int, b: int| 0 <= a <= b < out.toks.len() implies #[trigger] out.toks[a].line
            <= #[trigger] out.toks[b].line by {
            if a >= st.toks.len() {
                assert(out.toks[a] == rest.toks[a - st.toks.len()]);
                assert(out.toks[b] == rest.toks[b - st.toks.len()]);
            } else if b >= st.toks.len() {
                assert(out.toks[b] == rest.toks[b - st.toks.len()]);
            }
        }
    }
}

/// Scanning is deterministic and free of side effects on its input: the scan
/// is a mathematical function of the source text, so scanning equal sources
/// — or one source twice — yields structurally identical token sequences and
/// diagnostics.
pub proof fn lemma_scan_deterministic(s1: Seq<char>, s2: Seq<char>)
    requires
        s1 == s2,
    ensures
        scan_spec(s1).toks == scan_spec(s2).toks,
        scan_spec(s1).errs == scan_spec(s2).errs,
{
}

} // verus!

