use vstd::prelude::*;
use crate::scanner::{
    digits_end, is_alnum, is_alpha, is_digit, line_end, newlines, number_end, scan_errors_of, scan_from, scan_step,
    scan_tokens_of, string_end, word_end,
};
use crate::driver::{run_model, Command};
use crate::ast::expr_text;
use crate::parser::{lemma_reprint_ignores_layout, p_expression, unlined, unlined_tokens};
use crate::scanner::{eof_token, opt_seq};
use crate::token::TokenView;
use crate::text::{CARRIAGE_RETURN, DOT_BYTE, NEWLINE, QUOTE, SLASH_BYTE, SPACE, TAB};

verus! {

/// A byte that separates lexemes and is not a line break.
pub open spec fn is_blank(c: u8) -> bool {
    c == SPACE || c == TAB || c == CARRIAGE_RETURN
}

/// Scanning from `i` on line `line` starts a lexeme at `k`: `k` lies
/// between two lexemes.
pub open spec fn reaches(s: Seq<u8>, i: int, line: nat, k: int) -> bool
    decreases s.len() - i,
{
    if i == k {
        true
    } else if i < 0 || i >= s.len() || i > k {
        false
    } else {
        let st = scan_step(s, i, line);
        st.next > i && st.next <= s.len() && reaches(s, st.next, st.line, k)
    }
}

/// `s` with the byte `c` inserted at `k`.
pub open spec fn insert_at(s: Seq<u8>, k: int, c: u8) -> Seq<u8> {
    s.subrange(0, k) + seq![c] + s.subrange(k, s.len() as int)
}

proof fn lemma_digits_shift(a: Seq<u8>, t: Seq<u8>, j: int)
    requires
        0 <= j <= t.len(),
    ensures
        digits_end(a + t, a.len() + j) == a.len() + digits_end(t, j),
    decreases t.len() - j,
{
    if j < t.len() {
        assert((a + t)[a.len() + j] == t[j]);
        lemma_digits_shift(a, t, j + 1);
    }
}

proof fn lemma_word_shift(a: Seq<u8>, t: Seq<u8>, j: int)
    requires
        0 <= j <= t.len(),
    ensures
        word_end(a + t, a.len() + j) == a.len() + word_end(t, j),
    decreases t.len() - j,
{
    if j < t.len() {
        assert((a + t)[a.len() + j] == t[j]);
        lemma_word_shift(a, t, j + 1);
    }
}

proof fn lemma_line_end_shift(a: Seq<u8>, t: Seq<u8>, j: int)
    requires
        0 <= j <= t.len(),
    ensures
        line_end(a + t, a.len() + j) == a.len() + line_end(t, j),
    decreases t.len() - j,
{
    if j < t.len() {
        assert((a + t)[a.len() + j] == t[j]);
        lemma_line_end_shift(a, t, j + 1);
    }
}

proof fn lemma_string_end_shift(a: Seq<u8>, t: Seq<u8>, j: int)
    requires
        0 <= j <= t.len(),
    ensures
        string_end(a + t, a.len() + j) == a.len() + string_end(t, j),
    decreases t.len() - j,
{
    if j < t.len() {
        assert((a + t)[a.len() + j] == t[j]);
        lemma_string_end_shift(a, t, j + 1);
    }
}

proof fn lemma_newlines_shift(a: Seq<u8>, t: Seq<u8>, x: int, y: int)
    requires
        0 <= x <= y <= t.len(),
    ensures
        newlines(a + t, a.len() + x, a.len() + y) == newlines(t, x, y),
    decreases y - x,
{
    if x < y {
        assert((a + t)[a.len() + y - 1] == t[y - 1]);
        lemma_newlines_shift(a, t, x, y - 1);
    }
}

proof fn lemma_digits_bound(s: Seq<u8>, i: int)
    requires
        0 <= i <= s.len(),
    ensures
        i <= digits_end(s, i) <= s.len(),
    decreases s.len() - i,
{
    if i < s.len() {
        lemma_digits_bound(s, i + 1);
    }
}

proof fn lemma_ends_bound(s: Seq<u8>, i: int)
    requires
        0 <= i <= s.len(),
    ensures
        i <= word_end(s, i) <= s.len(),
        i <= line_end(s, i) <= s.len(),
        i <= string_end(s, i) <= s.len(),
    decreases s.len() - i,
{
    if i < s.len() {
        lemma_ends_bound(s, i + 1);
    }
}

/// One step of scanning at `a.len() + j` in `a + t` is the step at `j` in
/// `t`, moved by `a.len()`.
proof fn lemma_step_shift(a: Seq<u8>, t: Seq<u8>, j: int, line: nat)
    requires
        0 <= j < t.len(),
    ensures
        ({
            let x = scan_step(a + t, a.len() + j, line);
            let y = scan_step(t, j, line);
            x.next == a.len() + y.next && x.line == y.line && x.token == y.token && x.diag == y.diag
        }),
{
    let s = a + t;
    let n = a.len() as int;
    assert(s[n + j] == t[j]);
    if j + 1 < t.len() {
        assert(s[n + j + 1] == t[j + 1]);
    }
    lemma_digits_bound(t, j);
    lemma_ends_bound(t, j + 1);
    lemma_ends_bound(t, j);
    lemma_digits_shift(a, t, j);
    lemma_word_shift(a, t, j + 1);
    if j + 2 <= t.len() {
        lemma_line_end_shift(a, t, j + 2);
    }
    lemma_string_end_shift(a, t, j + 1);
    let e = digits_end(t, j);
    if e + 1 < t.len() {
        assert(s[n + e] == t[e]);
        assert(s[n + e + 1] == t[e + 1]);
        lemma_digits_shift(a, t, e + 1);
        lemma_digits_bound(t, e + 1);
    }
    let se = string_end(t, j + 1);
    lemma_newlines_shift(a, t, j + 1, se);
    if se < t.len() {
        assert(s[n + se] == t[se]);
    }
    assert forall|x: int, y: int| 0 <= x <= y <= t.len() implies s.subrange(n + x, n + y) =~= t.subrange(x, y) by {
        assert forall|m: int| 0 <= m < y - x implies s.subrange(n + x, n + y)[m] == t.subrange(x, y)[m] by {
            assert(s[n + x + m] == t[x + m]);
        }
    }
    let w = word_end(t, j + 1);
    assert(s.subrange(n + j, n + w) == t.subrange(j, w));
    let ne = number_end(t, j);
    assert(number_end(s, n + j) == n + ne);
    assert(s.subrange(n + j, n + ne) == t.subrange(j, ne));
    assert(s.subrange(n + j, n + se + 1) == t.subrange(j, se + 1) || se >= t.len());
    assert(s.subrange(n + j + 1, n + se) == t.subrange(j + 1, se));
    assert(s.subrange(n + j, n + j + 1) == t.subrange(j, j + 1));
    if j + 2 <= t.len() {
        assert(s.subrange(n + j, n + j + 2) == t.subrange(j, j + 2));
    }
}

/// Scanning from `a.len() + j` in `a + t` is scanning from `j` in `t`.
pub proof fn lemma_scan_shift(a: Seq<u8>, t: Seq<u8>, j: int, line: nat)
    requires
        0 <= j <= t.len(),
    ensures
        scan_from(a + t, a.len() + j, line) == scan_from(t, j, line),
    decreases t.len() - j,
{
    if j < t.len() {
        lemma_step_shift(a, t, j, line);
        let y = scan_step(t, j, line);
        if y.next > j && y.next <= t.len() {
            lemma_scan_shift(a, t, y.next, y.line);
        }
    }
}

proof fn lemma_insert_index(s: Seq<u8>, k: int, c: u8)
    requires
        0 <= k <= s.len(),
    ensures
        insert_at(s, k, c).len() == s.len() + 1,
        insert_at(s, k, c)[k] == c,
        forall|m: int| 0 <= m < k ==> #[trigger] insert_at(s, k, c)[m] == s[m],
        forall|m: int| k <= m < s.len() ==> #[trigger] insert_at(s, k, c)[m + 1] == s[m],
        forall|x: int, y: int| 0 <= x <= y <= k ==> #[trigger] insert_at(s, k, c).subrange(x, y) == s.subrange(x, y),
{
    let t = insert_at(s, k, c);
    assert forall|x: int, y: int| 0 <= x <= y <= k implies #[trigger] t.subrange(x, y) == s.subrange(x, y) by {
        assert(t.subrange(x, y) =~= s.subrange(x, y));
    }
}

proof fn lemma_digits_local(s: Seq<u8>, k: int, c: u8, j: int)
    requires
        0 <= j <= k <= s.len(),
        digits_end(s, j) <= k,
        !is_digit(c),
    ensures
        digits_end(insert_at(s, k, c), j) == digits_end(s, j),
    decreases k - j,
{
    lemma_insert_index(s, k, c);
    let t = insert_at(s, k, c);
    if j < k {
        assert(t[j] == s[j]);
        if is_digit(s[j]) {
            lemma_digits_local(s, k, c, j + 1);
            assert(digits_end(t, j) == digits_end(t, j + 1));
        } else {
            assert(digits_end(s, j) == j);
            assert(digits_end(t, j) == j);
        }
    } else {
        assert(t[k] == c);
        if k < s.len() {
            lemma_digits_bound(s, k + 1);
        }
    }
}

proof fn lemma_word_local(s: Seq<u8>, k: int, c: u8, j: int)
    requires
        0 <= j <= k <= s.len(),
        word_end(s, j) <= k,
        !is_alnum(c),
    ensures
        word_end(insert_at(s, k, c), j) == word_end(s, j),
    decreases k - j,
{
    lemma_insert_index(s, k, c);
    let t = insert_at(s, k, c);
    if j < k {
        assert(t[j] == s[j]);
        if is_alnum(s[j]) {
            lemma_word_local(s, k, c, j + 1);
        }
    } else {
        assert(t[k] == c);
        if k < s.len() {
            lemma_ends_bound(s, k + 1);
        }
    }
}

/// A comment that runs to `k` in `s` runs one byte further once a blank
/// is inserted at `k`, and no further.
proof fn lemma_line_end_local(s: Seq<u8>, k: int, c: u8, j: int)
    requires
        0 <= j <= k <= s.len(),
        line_end(s, j) <= k,
        is_blank(c),
    ensures
        line_end(s, j) < k ==> line_end(insert_at(s, k, c), j) == line_end(s, j),
        line_end(s, j) == k ==> line_end(insert_at(s, k, c), j) == k + 1,
    decreases k - j,
{
    lemma_insert_index(s, k, c);
    let t = insert_at(s, k, c);
    if j < k {
        assert(t[j] == s[j]);
        if s[j] != NEWLINE {
            lemma_line_end_local(s, k, c, j + 1);
        }
    } else {
        assert(t[k] == c);
        if k < s.len() {
            assert(t[k + 1] == s[k]);
            lemma_ends_bound(s, k + 1);
        }
        assert(line_end(t, k + 1) == k + 1);
    }
}

proof fn lemma_string_end_local(s: Seq<u8>, k: int, c: u8, j: int)
    requires
        0 <= j <= k <= s.len(),
        string_end(s, j) < k || string_end(s, j) == s.len(),
        is_blank(c),
    ensures
        string_end(s, j) < k ==> string_end(insert_at(s, k, c), j) == string_end(s, j),
        string_end(s, j) == s.len() == k ==> string_end(insert_at(s, k, c), j) == k + 1,
    decreases k - j,
{
    lemma_insert_index(s, k, c);
    lemma_ends_bound(s, j);
    let t = insert_at(s, k, c);
    if j < k {
        assert(t[j] == s[j]);
        if s[j] != QUOTE {
            lemma_string_end_local(s, k, c, j + 1);
        }
    } else if k == s.len() {
        assert(t[k] == c);
        assert(string_end(t, k + 1) == k + 1);
    }
}

proof fn lemma_newlines_local(s: Seq<u8>, k: int, c: u8, x: int, y: int)
    requires
        0 <= x <= y <= k <= s.len(),
    ensures
        newlines(insert_at(s, k, c), x, y) == newlines(s, x, y),
    decreases y - x,
{
    lemma_insert_index(s, k, c);
    if x < y {
        lemma_newlines_local(s, k, c, x, y - 1);
    }
}

/// A step that ends at or before `k` does not change when a blank is
/// inserted at `k`, except that a comment or an unterminated string that
/// runs to `k` swallows the blank.
proof fn lemma_step_insert(s: Seq<u8>, k: int, c: u8, i: int, line: nat)
    requires
        is_blank(c),
        0 <= i < k <= s.len(),
        i < scan_step(s, i, line).next <= k,
    ensures
        ({
            let a = scan_step(s, i, line);
            let b = scan_step(insert_at(s, k, c), i, line);
            &&& b.token == a.token
            &&& b.diag == a.diag
            &&& b.line == a.line
            &&& (b.next == a.next || (a.next == k && b.next == k + 1 && a.token is None))
        }),
{
    let t = insert_at(s, k, c);
    lemma_insert_index(s, k, c);
    let x = s[i];
    assert(t[i] == x);
    if i + 1 < k {
        assert(t[i + 1] == s[i + 1]);
    } else {
        assert(t[i + 1] == c);
    }
    if is_digit(x) {
        lemma_digits_bound(s, i);
        let e = digits_end(s, i);
        if e + 1 < s.len() && s[e] == DOT_BYTE && is_digit(s[e + 1]) {
            lemma_digits_bound(s, e + 2);
            assert(digits_end(s, e + 1) == digits_end(s, e + 2));
            lemma_digits_local(s, k, c, i);
            lemma_digits_local(s, k, c, e + 1);
            assert(t[e] == s[e]);
            assert(t[e + 1] == s[e + 1]);
        } else {
            lemma_digits_local(s, k, c, i);
            if e < k {
                assert(t[e] == s[e]);
                if e + 1 < k {
                    assert(t[e + 1] == s[e + 1]);
                } else {
                    assert(t[e + 1] == c);
                }
            } else {
                assert(t[e] == c);
            }
        }
    } else if is_alpha(x) {
        lemma_ends_bound(s, i + 1);
        lemma_word_local(s, k, c, i + 1);
    } else if x == QUOTE {
        lemma_ends_bound(s, i + 1);
        let e = string_end(s, i + 1);
        lemma_string_end_local(s, k, c, i + 1);
        if e < s.len() {
            lemma_newlines_local(s, k, c, i + 1, e);
        } else {
            lemma_newlines_local(s, k, c, i + 1, k);
            assert(newlines(t, i + 1, k + 1) == newlines(t, i + 1, k));
        }
    } else if x == SLASH_BYTE {
        if i + 1 < s.len() && s[i + 1] == SLASH_BYTE {
            lemma_ends_bound(s, i + 2);
            lemma_line_end_local(s, k, c, i + 2);
        }
    }
}

/// Scanning `s` from `k`, or its copy with a blank inserted at `k` from
/// `k + 1`, is scanning what follows `k`.
proof fn lemma_insert_suffix(s: Seq<u8>, k: int, c: u8, line: nat)
    requires
        0 <= k <= s.len(),
    ensures
        scan_from(insert_at(s, k, c), k + 1, line) == scan_from(s, k, line),
{
    let t = insert_at(s, k, c);
    let before = s.subrange(0, k);
    let rest = s.subrange(k, s.len() as int);
    assert(s =~= before + rest);
    assert(t =~= (before + seq![c]) + rest);
    lemma_scan_shift(before + seq![c], rest, 0, line);
    lemma_scan_shift(before, rest, 0, line);
}

/// At the insertion point the blank is skipped.
proof fn lemma_insert_point(s: Seq<u8>, k: int, c: u8, line: nat)
    requires
        is_blank(c),
        0 <= k <= s.len(),
    ensures
        scan_from(insert_at(s, k, c), k, line) == scan_from(s, k, line),
{
    let t = insert_at(s, k, c);
    lemma_insert_index(s, k, c);
    lemma_insert_suffix(s, k, c, line);
    let st = scan_step(t, k, line);
    assert(st.next == k + 1 && st.line == line && st.token is None && st.diag is None);
    let r = scan_from(t, k + 1, line);
    assert(scan_from(t, k, line).0 =~= r.0);
    assert(scan_from(t, k, line).1 =~= r.1);
}

/// Inserting a blank at a point that scanning from `i` reaches changes
/// nothing that scanning from `i` produces.
#[verifier::rlimit(40)]
proof fn lemma_insert_from(s: Seq<u8>, k: int, c: u8, i: int, line: nat)
    requires
        is_blank(c),
        0 <= i <= k <= s.len(),
        reaches(s, i, line, k),
    ensures
        scan_from(insert_at(s, k, c), i, line) == scan_from(s, i, line),
    decreases s.len() - i,
{
    let t = insert_at(s, k, c);
    if i == k {
        lemma_insert_point(s, k, c, line);
    } else {
        assert(t.len() == s.len() + 1);
        let a = scan_step(s, i, line);
        assert(reaches(s, a.next, a.line, k));
        assert(a.next <= k);
        lemma_step_insert(s, k, c, i, line);
        let b = scan_step(t, i, line);
        if b.next == a.next {
            lemma_insert_from(s, k, c, a.next, a.line);
        } else {
            lemma_insert_suffix(s, k, c, a.line);
        }
        let ra = scan_from(s, a.next, a.line);
        let rb = scan_from(t, b.next, b.line);
        assert(ra == rb);
    }
}

/// A space, tab or carriage return inserted between two lexemes changes
/// neither the tokens nor the errors of a source: layout within a line is
/// invisible to everything after the scanner.
pub proof fn lemma_blank_between_lexemes(s: Seq<u8>, k: int, c: u8)
    requires
        is_blank(c),
        0 <= k <= s.len(),
        reaches(s, 0, 1, k),
    ensures
        scan_tokens_of(insert_at(s, k, c)) == scan_tokens_of(s),
        scan_errors_of(insert_at(s, k, c)) == scan_errors_of(s),
{
    lemma_insert_from(s, k, c, 0, 1);
}

/// Whatever the command, a space, tab or carriage return inserted between
/// two lexemes changes nothing it prints or exits with; in particular
/// parsing then printing gives the same fully parenthesized text.
pub proof fn lemma_blank_invisible_to_commands(s: Seq<u8>, k: int, c: u8, command: Command)
    requires
        is_blank(c),
        0 <= k <= s.len(),
        reaches(s, 0, 1, k),
    ensures
        run_model(command, insert_at(s, k, c)) == run_model(command, s),
{
    lemma_blank_between_lexemes(s, k, c);
}

pub open spec fn unlined_opt(o: Option<TokenView>) -> Option<TokenView> {
    match o {
        Some(t) => Some(unlined(t)),
        None => None,
    }
}

proof fn lemma_unlined_concat(a: Seq<TokenView>, b: Seq<TokenView>)
    ensures
        unlined_tokens(a + b) == unlined_tokens(a) + unlined_tokens(b),
{
    assert(unlined_tokens(a + b) =~= unlined_tokens(a) + unlined_tokens(b));
}

proof fn lemma_unlined_opt_seq(o: Option<TokenView>)
    ensures
        unlined_tokens(opt_seq(o)) == opt_seq(unlined_opt(o)),
{
    assert(unlined_tokens(opt_seq(o)) =~= opt_seq(unlined_opt(o)));
}

/// Starting on another line moves every line by the same amount and
/// changes nothing else.
proof fn lemma_step_lines(s: Seq<u8>, i: int, l1: nat, l2: nat)
    requires
        0 <= i < s.len(),
    ensures
        scan_step(s, i, l1).next == scan_step(s, i, l2).next,
        unlined_opt(scan_step(s, i, l1).token) == unlined_opt(scan_step(s, i, l2).token),
        scan_step(s, i, l1).line - l1 == scan_step(s, i, l2).line - l2,
{
}

/// The tokens scanned from `i` do not depend on the line scanning starts
/// on, but for their lines.
proof fn lemma_scan_lines(s: Seq<u8>, i: int, l1: nat, l2: nat)
    requires
        0 <= i <= s.len(),
    ensures
        unlined_tokens(scan_from(s, i, l1).0) == unlined_tokens(scan_from(s, i, l2).0),
    decreases s.len() - i,
{
    if i < s.len() {
        lemma_step_lines(s, i, l1, l2);
        let a = scan_step(s, i, l1);
        let b = scan_step(s, i, l2);
        if a.next > i && a.next <= s.len() {
            lemma_scan_lines(s, a.next, a.line, b.line);
            lemma_unlined_concat(opt_seq(a.token), scan_from(s, a.next, a.line).0);
            lemma_unlined_concat(opt_seq(b.token), scan_from(s, b.next, b.line).0);
            lemma_unlined_opt_seq(a.token);
            lemma_unlined_opt_seq(b.token);
        }
    } else {
        assert(unlined_tokens(Seq::<TokenView>::empty()) =~= Seq::<TokenView>::empty());
    }
}

proof fn lemma_line_end_at_newline(s: Seq<u8>, k: int, j: int)
    requires
        0 <= j <= k <= s.len(),
        line_end(s, j) <= k,
    ensures
        line_end(insert_at(s, k, NEWLINE), j) == line_end(s, j),
    decreases k - j,
{
    lemma_insert_index(s, k, NEWLINE);
    lemma_ends_bound(s, j);
    let t = insert_at(s, k, NEWLINE);
    if j < k {
        assert(t[j] == s[j]);
        if s[j] != NEWLINE {
            lemma_line_end_at_newline(s, k, j + 1);
        }
    } else {
        assert(t[k] == NEWLINE);
    }
}

proof fn lemma_string_end_newline(s: Seq<u8>, k: int, j: int)
    requires
        0 <= j <= k <= s.len(),
        string_end(s, j) < k || string_end(s, j) == s.len(),
    ensures
        string_end(s, j) < k ==> string_end(insert_at(s, k, NEWLINE), j) == string_end(s, j),
        string_end(s, j) == s.len() == k ==> string_end(insert_at(s, k, NEWLINE), j) == k + 1,
    decreases k - j,
{
    lemma_insert_index(s, k, NEWLINE);
    lemma_ends_bound(s, j);
    let t = insert_at(s, k, NEWLINE);
    if j < k {
        assert(t[j] == s[j]);
        if s[j] != QUOTE {
            lemma_string_end_newline(s, k, j + 1);
        }
    } else if k == s.len() {
        assert(t[k] == NEWLINE);
        assert(string_end(t, k + 1) == k + 1);
    }
}

proof fn lemma_step_insert_newline(s: Seq<u8>, k: int, i: int, line: nat)
    requires
        0 <= i < k <= s.len(),
        i < scan_step(s, i, line).next <= k,
    ensures
        ({
            let a = scan_step(s, i, line);
            let b = scan_step(insert_at(s, k, NEWLINE), i, line);
            &&& b.token == a.token
            &&& ((b.next == a.next && b.line == a.line) || (a.next == k == s.len() && b.next == k + 1
                && a.token is None))
        }),
{
    let c = NEWLINE;
    let t = insert_at(s, k, c);
    lemma_insert_index(s, k, c);
    let x = s[i];
    assert(t[i] == x);
    if i + 1 < k {
        assert(t[i + 1] == s[i + 1]);
    } else {
        assert(t[i + 1] == c);
    }
    if is_digit(x) {
        lemma_digits_bound(s, i);
        let e = digits_end(s, i);
        if e + 1 < s.len() && s[e] == DOT_BYTE && is_digit(s[e + 1]) {
            lemma_digits_bound(s, e + 2);
            assert(digits_end(s, e + 1) == digits_end(s, e + 2));
            lemma_digits_local(s, k, c, i);
            lemma_digits_local(s, k, c, e + 1);
            assert(t[e] == s[e]);
            assert(t[e + 1] == s[e + 1]);
        } else {
            lemma_digits_local(s, k, c, i);
            if e < k {
                assert(t[e] == s[e]);
                if e + 1 < k {
                    assert(t[e + 1] == s[e + 1]);
                } else {
                    assert(t[e + 1] == c);
                }
            } else {
                assert(t[e] == c);
            }
        }
    } else if is_alpha(x) {
        lemma_ends_bound(s, i + 1);
        lemma_word_local(s, k, c, i + 1);
    } else if x == QUOTE {
        lemma_ends_bound(s, i + 1);
        let e = string_end(s, i + 1);
        lemma_string_end_newline(s, k, i + 1);
        if e < s.len() {
            lemma_newlines_local(s, k, c, i + 1, e);
        }
    } else if x == SLASH_BYTE {
        if i + 1 < s.len() && s[i + 1] == SLASH_BYTE {
            lemma_ends_bound(s, i + 2);
            lemma_line_end_at_newline(s, k, i + 2);
        }
    }
}

proof fn lemma_insert_newline_from(s: Seq<u8>, k: int, i: int, line: nat)
    requires
        0 <= i <= k <= s.len(),
        reaches(s, i, line, k),
    ensures
        unlined_tokens(scan_from(insert_at(s, k, NEWLINE), i, line).0) == unlined_tokens(scan_from(s, i, line).0),
    decreases s.len() - i,
{
    let t = insert_at(s, k, NEWLINE);
    lemma_insert_index(s, k, NEWLINE);
    if i == k {
        lemma_insert_suffix(s, k, NEWLINE, line + 1);
        lemma_scan_lines(s, k, line + 1, line);
        let st = scan_step(t, k, line);
        assert(st.next == k + 1 && st.line == line + 1 && st.token is None);
        assert(scan_from(t, k, line).0 =~= scan_from(t, k + 1, line + 1).0);
    } else {
        let a = scan_step(s, i, line);
        assert(reaches(s, a.next, a.line, k));
        assert(a.next <= k);
        lemma_step_insert_newline(s, k, i, line);
        let b = scan_step(t, i, line);
        lemma_unlined_concat(opt_seq(a.token), scan_from(s, a.next, a.line).0);
        lemma_unlined_concat(opt_seq(b.token), scan_from(t, b.next, b.line).0);
        if b.next == a.next && b.line == a.line {
            lemma_insert_newline_from(s, k, a.next, a.line);
        } else {
            assert(scan_from(s, a.next, a.line).0 =~= Seq::<TokenView>::empty());
            assert(scan_from(t, b.next, b.line).0 =~= Seq::<TokenView>::empty());
        }
    }
}

/// A newline inserted between two lexemes changes the tokens of a source
/// only in the lines they carry.
pub proof fn lemma_newline_between_lexemes(s: Seq<u8>, k: int)
    requires
        0 <= k <= s.len(),
        reaches(s, 0, 1, k),
    ensures
        unlined_tokens(scan_tokens_of(insert_at(s, k, NEWLINE))) == unlined_tokens(scan_tokens_of(s)),
{
    let t = insert_at(s, k, NEWLINE);
    lemma_insert_newline_from(s, k, 0, 1);
    let rs = scan_from(s, 0, 1);
    let rt = scan_from(t, 0, 1);
    assert(unlined_tokens(rs.0.push(eof_token(rs.2))) =~= unlined_tokens(rs.0).push(unlined(eof_token(rs.2))));
    assert(unlined_tokens(rt.0.push(eof_token(rt.2))) =~= unlined_tokens(rt.0).push(unlined(eof_token(rt.2))));
}

/// Parsing an expression and printing it again gives the same text, or
/// fails alike, when a blank or a newline is inserted between two of its
/// lexemes.
pub proof fn lemma_reprint_ignores_whitespace(s: Seq<u8>, k: int, c: u8)
    requires
        is_blank(c) || c == NEWLINE,
        0 <= k <= s.len(),
        reaches(s, 0, 1, k),
    ensures
        ({
            let p1 = p_expression(scan_tokens_of(s), 0, Seq::empty());
            let p2 = p_expression(scan_tokens_of(insert_at(s, k, c)), 0, Seq::empty());
            &&& p1 is Ok <==> p2 is Ok
            &&& p1 is Ok ==> p1->Ok_0.pos == p2->Ok_0.pos && expr_text(p1->Ok_0.value) == expr_text(
                p2->Ok_0.value,
            )
        }),
{
    if c == NEWLINE {
        lemma_newline_between_lexemes(s, k);
    } else {
        lemma_blank_between_lexemes(s, k, c);
    }
    lemma_reprint_ignores_layout(scan_tokens_of(s), scan_tokens_of(insert_at(s, k, c)));
}

} // verus!
