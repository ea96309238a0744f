//! Character-level text utilities: decimal formatting, line splitting,
//! substring replacement, joining and the syntax of decimal float literals.
use vstd::prelude::*;

verus! {

broadcast use vstd::string::group_string_axioms;

/// The ASCII digit for `d` (meaningful for `d < 10`).
pub open spec fn digit_char(d: nat) -> char {
    if d == 0 { '0' }
    else if d == 1 { '1' }
    else if d == 2 { '2' }
    else if d == 3 { '3' }
    else if d == 4 { '4' }
    else if d == 5 { '5' }
    else if d == 6 { '6' }
    else if d == 7 { '7' }
    else if d == 8 { '8' }
    else { '9' }
}

/// The decimal representation of `n`, most significant digit first, without
/// leading zeros (and "0" for zero), as `u32::to_string` writes it.
pub open spec fn decimal(n: nat) -> Seq<char>
    decreases n,
{
    if n < 10 {
        seq![digit_char(n)]
    } else {
        decimal(n / 10).push(digit_char(n % 10))
    }
}

/// The value of the ASCII digit `c` (0 for any other character).
pub open spec fn digit_value(c: char) -> nat {
    if '0' <= c && c <= '9' { (c as int - '0' as int) as nat } else { 0 }
}

/// The number that the digits `s` spell, most significant first.
pub open spec fn digits_value(s: Seq<char>) -> nat
    decreases s.len(),
{
    if s.len() == 0 {
        0
    } else {
        digits_value(s.drop_last()) * 10 + digit_value(s.last())
    }
}

/// `s` is the usual decimal text of `n`: one or more ASCII digits spelling
/// `n`, with no leading zero unless `n` is zero itself.
pub open spec fn is_decimal_of(s: Seq<char>, n: nat) -> bool {
    &&& s.len() > 0
    &&& all_digits(s)
    &&& digits_value(s) == n
    &&& (s.len() == 1 || s[0] != '0')
}

/// Every decimal representation has at least one character, two from ten on,
/// and is made of digits only.
pub proof fn lemma_decimal_digits(n: nat)
    ensures
        decimal(n).len() >= 1,
        n >= 10 ==> decimal(n).len() >= 2,
        all_digits(decimal(n)),
    decreases n,
{
    if n >= 10 {
        lemma_decimal_digits(n / 10);
        let d = decimal(n);
        assert forall|i: int| 0 <= i < d.len() implies is_ascii_digit(#[trigger] d[i]) by {
            if i < d.len() - 1 {
                assert(d[i] == decimal(n / 10)[i]);
            }
        }
    }
}

/// `decimal(n)` is the decimal text of `n`: its digits spell `n` and it has
/// no leading zero.
pub proof fn lemma_decimal_is_decimal_of(n: nat)
    ensures
        is_decimal_of(decimal(n), n),
        n > 0 ==> decimal(n)[0] != '0',
    decreases n,
{
    lemma_decimal_digits(n);
    if n >= 10 {
        lemma_decimal_is_decimal_of(n / 10);
        let d = decimal(n);
        assert(d.drop_last() =~= decimal(n / 10));
        assert(d.last() == digit_char((n % 10) as nat));
        assert(d[0] == decimal(n / 10)[0]);
        assert(decimal(n / 10)[0] != '0');
        assert(digit_value(digit_char((n % 10) as nat)) == n % 10);
        assert(n == (n / 10) * 10 + n % 10);
        assert(digits_value(d) == digits_value(decimal(n / 10)) * 10 + digit_value(digit_char((n % 10) as nat)));
        assert(digits_value(d) == n);
        assert(d.len() == 1 || d[0] != '0');
    } else {
        assert(decimal(n).drop_last() =~= Seq::<char>::empty());
        assert(digits_value(Seq::<char>::empty()) == 0);
        assert(decimal(n).last() == digit_char(n));
        assert(digit_value(digit_char(n)) == n);
        assert(digits_value(decimal(n)) == n);
    }
}

fn digit_to_char(d: u32) -> (c: char)
    requires
        d < 10,
    ensures
        c == digit_char(d as nat),
{
    if d == 0 { '0' }
    else if d == 1 { '1' }
    else if d == 2 { '2' }
    else if d == 3 { '3' }
    else if d == 4 { '4' }
    else if d == 5 { '5' }
    else if d == 6 { '6' }
    else if d == 7 { '7' }
    else if d == 8 { '8' }
    else { '9' }
}

/// Appends the decimal representation of `n` to `out`.
pub fn push_decimal(out: &mut Vec<char>, n: u32)
    ensures
        final(out)@ == old(out)@ + decimal(n as nat),
    decreases n,
{
    if n < 10 {
        out.push(digit_to_char(n));
    } else {
        push_decimal(out, n / 10);
        out.push(digit_to_char(n % 10));
    }
}

/// The characters of `s`, in order.
pub fn chars_of(s: &str) -> (v: Vec<char>)
    ensures
        v@ == s@,
{
    let mut v: Vec<char> = Vec::new();
    for c in it: s.chars()
        invariant
            it.seq() == s@,
            v@ == it.seq().take(it.index()),
    {
        v.push(c);
    }
    v
}

/// Collects characters into a `String` (std's `FromIterator<&char>` for
/// `String`, which appends each character in turn).
#[verifier::external_body]
pub(crate) fn string_from_chars(chars: &Vec<char>) -> (s: String)
    ensures
        s@ == chars@,
{
    chars.iter().collect()
}

/// The decimal representation of `n` as a `String`.
pub fn u32_to_string(n: u32) -> (s: String)
    ensures
        s@ == decimal(n as nat),
{
    let mut v: Vec<char> = Vec::new();
    push_decimal(&mut v, n);
    string_from_chars(&v)
}


// ---------------------------------------------------------------------------
// Replacing every occurrence of a pattern
// ---------------------------------------------------------------------------

/// `s` with every occurrence of `pat` replaced by `rep`, matches taken from the
/// left without overlap, as `str::replace` does for a non-empty pattern.
pub open spec fn replace_all(s: Seq<char>, pat: Seq<char>, rep: Seq<char>) -> Seq<char>
    decreases s.len(),
{
    if pat.len() == 0 || s.len() < pat.len() {
        s
    } else if s.take(pat.len() as int) == pat {
        rep + replace_all(s.skip(pat.len() as int), pat, rep)
    } else {
        seq![s[0]] + replace_all(s.skip(1), pat, rep)
    }
}

/// No two neighbouring characters of `t` are both spaces.
pub open spec fn no_double_space(t: Seq<char>) -> bool {
    forall|j: int| 0 <= j < t.len() - 1 ==> !(#[trigger] t[j] == ' ' && t[j + 1] == ' ')
}

/// Text without a double space is left as it is when double spaces are
/// replaced.
pub proof fn lemma_replace_absent(t: Seq<char>, rep: Seq<char>)
    requires
        no_double_space(t),
    ensures
        replace_all(t, seq![' ', ' '], rep) == t,
    decreases t.len(),
{
    let pat = seq![' ', ' '];
    if t.len() >= 2 {
        if t.take(2) == pat {
            assert(t.take(2)[0] == t[0] && t.take(2)[1] == t[1]);
            assert(t[0] == ' ' && t[1] == ' ');
        }
        assert forall|j: int| 0 <= j < t.skip(1).len() - 1 implies !(#[trigger] t.skip(1)[j] == ' ' && t.skip(1)[j
            + 1] == ' ') by {
            assert(t.skip(1)[j] == t[j + 1]);
            assert(t.skip(1)[j + 1] == t[j + 2]);
        }
        lemma_replace_absent(t.skip(1), rep);
        assert(seq![t[0]] + t.skip(1) =~= t);
    }
}

/// A leading double space is replaced, and the replacing goes on after it.
pub proof fn lemma_replace_leading(t: Seq<char>, rep: Seq<char>)
    ensures
        replace_all(seq![' ', ' '] + t, seq![' ', ' '], rep) == rep + replace_all(t, seq![' ', ' '], rep),
{
    let pat = seq![' ', ' '];
    assert((pat + t).take(2) =~= pat);
    assert((pat + t).skip(2) =~= t);
}

fn matches_at(s: &Vec<char>, i: usize, pat: &Vec<char>) -> (r: bool)
    requires
        i + pat.len() <= s.len(),
    ensures
        r == (s@.subrange(i as int, i + pat.len()) == pat@),
{
    let mut j: usize = 0;
    while j < pat.len()
        invariant
            i + pat.len() <= s.len(),
            j <= pat.len(),
            forall|k: int| 0 <= k < j ==> s@[i + k] == pat@[k],
        decreases pat.len() - j,
    {
        if s[i + j] != pat[j] {
            assert(s@.subrange(i as int, i + pat.len())[j as int] != pat@[j as int]);
            return false;
        }
        j = j + 1;
    }
    assert(s@.subrange(i as int, i + pat.len()) =~= pat@);
    true
}

/// Replaces every occurrence of the non-empty `pat` in `s` by `rep`.
pub fn replace_chars(s: &Vec<char>, pat: &Vec<char>, rep: &Vec<char>) -> (r: Vec<char>)
    requires
        pat.len() > 0,
    ensures
        r@ == replace_all(s@, pat@, rep@),
{
    let n = s.len();
    let plen = pat.len();
    let mut out: Vec<char> = Vec::new();
    let mut i: usize = 0;
    assert(s@.skip(0) =~= s@);
    assert(out@ + s@ =~= s@);
    while i < n
        invariant
            n == s.len(),
            plen == pat.len(),
            plen > 0,
            i <= n,
            out@ + replace_all(s@.skip(i as int), pat@, rep@) == replace_all(s@, pat@, rep@),
        decreases n - i,
    {
        let ghost rest = s@.skip(i as int);
        if plen <= n - i && matches_at(s, i, pat) {
            assert(rest.take(plen as int) =~= s@.subrange(i as int, i + plen));
            assert(rest.skip(plen as int) =~= s@.skip(i + plen));
            let mut k: usize = 0;
            let ghost before = out@;
            while k < rep.len()
                invariant
                    k <= rep.len(),
                    out@ == before + rep@.take(k as int),
                decreases rep.len() - k,
            {
                out.push(rep[k]);
                k = k + 1;
                assert(before + rep@.take(k as int) =~= (before + rep@.take(k - 1)).push(rep@[k - 1]));
            }
            assert(rep@.take(rep.len() as int) =~= rep@);
            assert(out@ + replace_all(s@.skip(i + plen), pat@, rep@) =~= before + (rep@
                + replace_all(rest.skip(plen as int), pat@, rep@)));
            i = i + plen;
        } else {
            if plen <= n - i {
                assert(rest.take(plen as int) =~= s@.subrange(i as int, i + plen));
            } else {
                assert(replace_all(s@.skip(i + 1), pat@, rep@) == s@.skip(i + 1));
            }
            assert(rest.skip(1) =~= s@.skip(i + 1));
            assert(rest =~= seq![s@[i as int]] + s@.skip(i + 1));
            let ghost before = out@;
            out.push(s[i]);
            assert(out@ + replace_all(s@.skip(i + 1), pat@, rep@) =~= before + (seq![s@[i as int]]
                + replace_all(s@.skip(i + 1), pat@, rep@)));
            i = i + 1;
        }
    }
    assert(s@.skip(n as int) =~= Seq::<char>::empty());
    assert(out@ + Seq::<char>::empty() =~= out@);
    out
}


// ---------------------------------------------------------------------------
// Joining lines
// ---------------------------------------------------------------------------

/// The pieces of `parts` with `sep` between each two neighbours, as
/// `[String]::join` builds it.
pub open spec fn join(parts: Seq<Seq<char>>, sep: Seq<char>) -> Seq<char>
    decreases parts.len(),
{
    if parts.len() == 0 {
        Seq::empty()
    } else if parts.len() == 1 {
        parts[0]
    } else {
        join(parts.drop_last(), sep) + sep + parts.last()
    }
}

/// When there are at least two pieces, the joined text starts with the
/// first piece followed by the separator.
pub proof fn lemma_join_first(parts: Seq<Seq<char>>, sep: Seq<char>)
    requires
        parts.len() >= 2,
    ensures
        join(parts, sep).len() >= parts[0].len() + sep.len() as int,
        join(parts, sep).take(parts[0].len() as int) == parts[0],
        join(parts, sep).subrange(parts[0].len() as int, parts[0].len() + sep.len() as int) == sep,
    decreases parts.len(),
{
    let front = parts.drop_last();
    let j = join(parts, sep);
    assert(j == join(front, sep) + sep + parts.last());
    if parts.len() == 2 {
        assert(join(front, sep) == parts[0]);
    } else {
        lemma_join_first(front, sep);
        assert(front[0] == parts[0]);
    }
    assert(j.take(parts[0].len() as int) =~= join(front, sep).take(parts[0].len() as int));
    assert(j.subrange(parts[0].len() as int, parts[0].len() + sep.len() as int) =~= (join(front, sep) + sep).subrange(
        parts[0].len() as int,
        parts[0].len() + sep.len() as int,
    ));
}

/// When there are at least two pieces, the joined text ends with the
/// separator followed by the last piece.
pub proof fn lemma_join_last(parts: Seq<Seq<char>>, sep: Seq<char>)
    requires
        parts.len() >= 2,
    ensures
        join(parts, sep).len() >= parts.last().len() + sep.len(),
        join(parts, sep).skip(join(parts, sep).len() - parts.last().len()) == parts.last(),
        join(parts, sep).subrange(
            join(parts, sep).len() - parts.last().len() - sep.len(),
            join(parts, sep).len() - parts.last().len(),
        ) == sep,
{
    let j = join(parts, sep);
    let head = join(parts.drop_last(), sep);
    assert(j == head + sep + parts.last());
    assert(j.skip(j.len() - parts.last().len()) =~= parts.last());
    assert(j.subrange(j.len() - parts.last().len() - sep.len(), j.len() - parts.last().len()) =~= sep);
}

/// Joining a piece in front of at least one more puts the separator between
/// it and the rest joined.
pub proof fn lemma_join_prepend(first: Seq<char>, rest: Seq<Seq<char>>, sep: Seq<char>)
    requires
        rest.len() >= 1,
    ensures
        join(seq![first] + rest, sep) == first + sep + join(rest, sep),
    decreases rest.len(),
{
    let all = seq![first] + rest;
    assert(all.drop_last() =~= seq![first] + rest.drop_last());
    assert(all.last() == rest.last());
    if rest.len() == 1 {
        assert(join(seq![first], sep) == first);
        assert(join(rest, sep) == rest[0]);
    } else {
        lemma_join_prepend(first, rest.drop_last(), sep);
        assert(join(all, sep) =~= first + sep + join(rest, sep));
    }
}

/// Joins `parts` with `sep` between each two neighbours.
pub fn join_strings(parts: &Vec<String>, sep: &str) -> (r: String)
    ensures
        r@ == join(parts.deep_view(), sep@),
{
    let mut r = String::new();
    let n = parts.len();
    let ghost dv = parts.deep_view();
    let mut i: usize = 0;
    while i < n
        invariant
            n == parts.len(),
            dv == parts.deep_view(),
            i <= n,
            r@ == join(dv.take(i as int), sep@),
        decreases n - i,
    {
        assert(dv.take(i + 1).drop_last() =~= dv.take(i as int));
        if i > 0 {
            r.append(sep);
        }
        r.append(parts[i].as_str());
        i = i + 1;
        if i == 1 {
            assert(join(dv.take(1), sep@) == dv[0]);
        }
    }
    assert(dv.take(n as int) =~= dv);
    r
}

// ---------------------------------------------------------------------------
// Splitting into lines
// ---------------------------------------------------------------------------

/// Index of the first `'\n'` in `s`, or `s.len()` when there is none.
pub open spec fn first_newline(s: Seq<char>) -> nat
    decreases s.len(),
{
    if s.len() == 0 {
        0
    } else if s[0] == '\n' {
        0
    } else {
        1 + first_newline(s.skip(1))
    }
}

/// `line` without one trailing carriage return.
pub open spec fn strip_cr(line: Seq<char>) -> Seq<char> {
    if line.len() > 0 && line.last() == '\r' {
        line.drop_last()
    } else {
        line
    }
}

pub proof fn lemma_first_newline(s: Seq<char>)
    ensures
        first_newline(s) <= s.len(),
        first_newline(s) < s.len() ==> s[first_newline(s) as int] == '\n',
        forall|j: int| 0 <= j < first_newline(s) ==> s[j] != '\n',
    decreases s.len(),
{
    if s.len() > 0 && s[0] != '\n' {
        lemma_first_newline(s.skip(1));
        assert forall|j: int| 0 <= j < first_newline(s) implies s[j] != '\n' by {
            if j > 0 {
                assert(s[j] == s.skip(1)[j - 1]);
            }
        }
    }
}

/// The lines of `s` as `str::lines` yields them: split at each `'\n'`, a
/// carriage return right before the `'\n'` dropped, and no empty line after a
/// final `'\n'`.
pub open spec fn lines(s: Seq<char>) -> Seq<Seq<char>>
    decreases s.len(),
{
    if s.len() == 0 {
        Seq::empty()
    } else {
        let k = first_newline(s);
        if k >= s.len() {
            seq![s]
        } else {
            seq![strip_cr(s.take(k as int))] + lines(s.skip(k as int + 1))
        }
    }
}

proof fn lemma_first_newline_prefix(cur: Seq<char>, t: Seq<char>)
    requires
        forall|j: int| 0 <= j < cur.len() ==> cur[j] != '\n',
        t.len() == 0 || t[0] == '\n',
    ensures
        first_newline(cur + t) == cur.len(),
    decreases cur.len(),
{
    if cur.len() > 0 {
        assert((cur + t).skip(1) =~= cur.skip(1) + t);
        lemma_first_newline_prefix(cur.skip(1), t);
    } else {
        assert(cur + t =~= t);
    }
}

fn strip_cr_chars(line: Vec<char>) -> (r: Vec<char>)
    ensures
        r@ == strip_cr(line@),
{
    let mut line = line;
    let n = line.len();
    if n > 0 && line[n - 1] == '\r' {
        line.pop();
    }
    line
}

/// Splitting text into lines and joining them with newlines again gives the
/// text back, when it has no carriage return and does not end with a newline.
pub proof fn lemma_lines_join(s: Seq<char>)
    requires
        forall|i: int| 0 <= i < s.len() ==> s[i] != '\r',
        s.len() == 0 || s.last() != '\n',
    ensures
        join(lines(s), seq!['\n']) == s,
    decreases s.len(),
{
    if s.len() > 0 {
        let k = first_newline(s);
        lemma_first_newline(s);
        if k < s.len() {
            let rest = s.skip(k as int + 1);
            assert(rest.len() > 0);
            let head = s.take(k as int);
            assert(strip_cr(head) == head) by {
                if head.len() > 0 {
                    assert(head.last() == s[k - 1]);
                }
            }
            assert forall|i: int| 0 <= i < rest.len() implies rest[i] != '\r' by {
                assert(rest[i] == s[i + k + 1]);
            }
            assert(rest.last() == s.last());
            lemma_lines_join(rest);
            assert(lines(rest).len() >= 1);
            assert(lines(s) == seq![head] + lines(rest));
            lemma_join_prepend(head, lines(rest), seq!['\n']);
            assert(head + seq!['\n'] + rest =~= s);
        }
    }
}

/// Splits `s` into its lines (see [`lines`]).
pub fn split_lines(s: &Vec<char>) -> (r: Vec<Vec<char>>)
    ensures
        r.deep_view() == lines(s@),
{
    let n = s.len();
    let mut done: Vec<Vec<char>> = Vec::new();
    let mut cur: Vec<char> = Vec::new();
    let mut i: usize = 0;
    assert(s@.skip(0) =~= s@);
    assert(cur@ + s@ =~= s@);
    assert(done.deep_view() + lines(s@) =~= lines(s@));
    while i < n
        invariant
            n == s.len(),
            i <= n,
            forall|j: int| 0 <= j < cur@.len() ==> cur@[j] != '\n',
            done.deep_view() + lines(cur@ + s@.skip(i as int)) == lines(s@),
        decreases n - i,
    {
        let c = s[i];
        let ghost t = s@.skip(i as int);
        assert(t =~= seq![c] + s@.skip(i + 1));
        if c == '\n' {
            proof {
                lemma_first_newline_prefix(cur@, t);
                assert((cur@ + t).take(cur@.len() as int) =~= cur@);
                assert((cur@ + t).skip(cur@.len() as int + 1) =~= s@.skip(i + 1));
            }
            let ghost before = done.deep_view();
            let line = strip_cr_chars(cur);
            assert(line.deep_view() =~= line@);
            done.push(line);
            assert(done.deep_view() =~= before.push(strip_cr(cur@)));
            assert(done.deep_view() + lines(s@.skip(i + 1)) =~= before + (seq![strip_cr(cur@)]
                + lines(s@.skip(i + 1))));
            cur = Vec::new();
            assert(cur@ + s@.skip(i + 1) =~= s@.skip(i + 1));
        } else {
            let ghost before = cur@;
            cur.push(c);
            assert(cur@ + s@.skip(i + 1) =~= before + t);
        }
        i = i + 1;
    }
    assert(cur@ + s@.skip(n as int) =~= cur@);
    proof {
        lemma_first_newline_prefix(cur@, Seq::empty());
        assert(cur@ + Seq::<char>::empty() =~= cur@);
    }
    if cur.len() > 0 {
        let ghost before = done.deep_view();
        assert(cur.deep_view() =~= cur@);
        done.push(cur);
        assert(done.deep_view() =~= before + seq![cur@]);
    } else {
        assert(done.deep_view() + lines(cur@) =~= done.deep_view());
    }
    done
}


// ---------------------------------------------------------------------------
// Decimal float literals
// ---------------------------------------------------------------------------

pub open spec fn is_ascii_digit(c: char) -> bool {
    '0' <= c && c <= '9'
}

pub open spec fn all_digits(s: Seq<char>) -> bool {
    forall|i: int| 0 <= i < s.len() ==> is_ascii_digit(#[trigger] s[i])
}

/// `c` is the lower-case ASCII letter `w` or its upper-case form.
pub open spec fn same_letter(c: char, w: char) -> bool {
    c == w || c as u32 + 32 == w as u32
}

/// `s` spells the lower-case ASCII word `word`, each letter in either case.
pub open spec fn spells_word(s: Seq<char>, word: Seq<char>) -> bool {
    s.len() == word.len() && forall|i: int| 0 <= i < s.len() ==> same_letter(#[trigger] s[i], word[i])
}

/// `s` without one leading `+` or `-`.
pub open spec fn without_sign(s: Seq<char>) -> Seq<char> {
    if s.len() > 0 && (s[0] == '+' || s[0] == '-') {
        s.skip(1)
    } else {
        s
    }
}

/// `Digit+ | Digit+ '.' Digit* | Digit* '.' Digit+`
pub open spec fn is_mantissa(m: Seq<char>) -> bool {
    ||| m.len() > 0 && all_digits(m)
    ||| exists|d: int|
        0 <= d < m.len() && #[trigger] m[d] == '.' && m.len() > 1 && all_digits(m.take(d))
            && all_digits(m.skip(d + 1))
}

/// `Sign? Digit+`
pub open spec fn is_exponent(e: Seq<char>) -> bool {
    without_sign(e).len() > 0 && all_digits(without_sign(e))
}

/// `Mantissa ( ('e' | 'E') Exponent )?`
pub open spec fn is_decimal_number(b: Seq<char>) -> bool {
    ||| is_mantissa(b)
    ||| exists|k: int|
        0 <= k < b.len() && (#[trigger] b[k] == 'e' || b[k] == 'E') && is_mantissa(b.take(k))
            && is_exponent(b.skip(k + 1))
}

/// The grammar that std documents for parsing an `f64` from a string:
/// `Sign? ( 'inf' | 'infinity' | 'nan' | Number )`, letters in any case.
/// `s.parse::<f64>()` succeeds exactly on these strings.
pub open spec fn is_float_literal(s: Seq<char>) -> bool {
    let b = without_sign(s);
    ||| spells_word(b, seq!['i', 'n', 'f'])
    ||| spells_word(b, seq!['i', 'n', 'f', 'i', 'n', 'i', 't', 'y'])
    ||| spells_word(b, seq!['n', 'a', 'n'])
    ||| is_decimal_number(b)
}

/// First index in `lo..hi` holding `a` or `b`, or `hi`.
fn find_either(s: &Vec<char>, lo: usize, hi: usize, a: char, b: char) -> (k: usize)
    requires
        lo <= hi <= s.len(),
    ensures
        lo <= k <= hi,
        forall|j: int| lo <= j < k ==> s@[j] != a && s@[j] != b,
        k < hi ==> (s@[k as int] == a || s@[k as int] == b),
{
    let mut k = lo;
    while k < hi
        invariant
            lo <= k <= hi <= s.len(),
            forall|j: int| lo <= j < k ==> s@[j] != a && s@[j] != b,
        decreases hi - k,
    {
        if s[k] == a || s[k] == b {
            return k;
        }
        k = k + 1;
    }
    k
}

fn digits_only(s: &Vec<char>, lo: usize, hi: usize) -> (r: bool)
    requires
        lo <= hi <= s.len(),
    ensures
        r == all_digits(s@.subrange(lo as int, hi as int)),
{
    let mut k = lo;
    while k < hi
        invariant
            lo <= k <= hi <= s.len(),
            forall|j: int| lo <= j < k ==> is_ascii_digit(s@[j]),
        decreases hi - k,
    {
        if !('0' <= s[k] && s[k] <= '9') {
            assert(!is_ascii_digit(s@.subrange(lo as int, hi as int)[k - lo]));
            return false;
        }
        k = k + 1;
    }
    assert forall|i: int| 0 <= i < hi - lo implies is_ascii_digit(
        #[trigger] s@.subrange(lo as int, hi as int)[i],
    ) by {
        assert(s@.subrange(lo as int, hi as int)[i] == s@[lo + i]);
    }
    true
}

fn mantissa_ok(s: &Vec<char>, lo: usize, hi: usize) -> (r: bool)
    requires
        lo <= hi <= s.len(),
    ensures
        r == is_mantissa(s@.subrange(lo as int, hi as int)),
{
    let ghost m = s@.subrange(lo as int, hi as int);
    let d = find_either(s, lo, hi, '.', '.');
    if d == hi {
        let r = hi > lo && digits_only(s, lo, hi);
        assert(!exists|d2: int| 0 <= d2 < m.len() && #[trigger] m[d2] == '.' && m.len() > 1
            && all_digits(m.take(d2)) && all_digits(m.skip(d2 + 1))) by {
            assert forall|d2: int| 0 <= d2 < m.len() implies #[trigger] m[d2] != '.' by {
                assert(m[d2] == s@[lo + d2]);
            }
        }
        r
    } else {
        let ghost dd = d - lo;
        assert(m[dd] == '.');
        assert(!all_digits(m)) by {
            assert(!is_ascii_digit(m[dd]));
        }
        let r = hi - lo > 1 && digits_only(s, lo, d) && digits_only(s, d + 1, hi);
        assert(m.take(dd) =~= s@.subrange(lo as int, d as int));
        assert(m.skip(dd + 1) =~= s@.subrange(d + 1, hi as int));
        if r {
            assert(m[dd] == '.' && m.len() > 1 && all_digits(m.take(dd)) && all_digits(
                m.skip(dd + 1),
            ));
        } else {
            assert forall|d2: int|
                0 <= d2 < m.len() && #[trigger] m[d2] == '.' && m.len() > 1 && all_digits(m.take(d2))
                implies !all_digits(m.skip(d2 + 1)) by {
                assert(m[d2] == s@[lo + d2]);
                if d2 > dd {
                    assert(m.take(d2)[dd] == '.');
                }
                assert(d2 == dd);
            }
        }
        r
    }
}

fn exponent_ok(s: &Vec<char>, lo: usize, hi: usize) -> (r: bool)
    requires
        lo <= hi <= s.len(),
    ensures
        r == is_exponent(s@.subrange(lo as int, hi as int)),
{
    let ghost e = s@.subrange(lo as int, hi as int);
    let start = if lo < hi && (s[lo] == '+' || s[lo] == '-') { lo + 1 } else { lo };
    assert(without_sign(e) =~= s@.subrange(start as int, hi as int));
    start < hi && digits_only(s, start, hi)
}

fn number_ok(s: &Vec<char>, lo: usize, hi: usize) -> (r: bool)
    requires
        lo <= hi <= s.len(),
    ensures
        r == is_decimal_number(s@.subrange(lo as int, hi as int)),
{
    let ghost b = s@.subrange(lo as int, hi as int);
    let k = find_either(s, lo, hi, 'e', 'E');
    if k == hi {
        assert forall|k2: int| 0 <= k2 < b.len() implies !(#[trigger] b[k2] == 'e' || b[k2] == 'E') by {
            assert(b[k2] == s@[lo + k2]);
        }
        mantissa_ok(s, lo, hi)
    } else {
        let ghost kk = k - lo;
        assert(b[kk] == 'e' || b[kk] == 'E');
        let whole = mantissa_ok(s, lo, hi);
        assert(!whole) by {
            assert(!all_digits(b)) by {
                assert(!is_ascii_digit(b[kk]));
            }
            assert forall|d2: int|
                0 <= d2 < b.len() && #[trigger] b[d2] == '.' && b.len() > 1 && all_digits(b.take(d2))
                implies !all_digits(b.skip(d2 + 1)) by {
                if kk < d2 {
                    assert(b.take(d2)[kk] == b[kk]);
                } else {
                    assert(b.skip(d2 + 1)[kk - d2 - 1] == b[kk]);
                }
            }
        }
        let r = mantissa_ok(s, lo, k) && exponent_ok(s, k + 1, hi);
        assert(b.take(kk) =~= s@.subrange(lo as int, k as int));
        assert(b.skip(kk + 1) =~= s@.subrange(k + 1, hi as int));
        if !r {
            assert forall|k2: int|
                0 <= k2 < b.len() && (#[trigger] b[k2] == 'e' || b[k2] == 'E') && is_mantissa(b.take(k2))
                implies !is_exponent(b.skip(k2 + 1)) by {
                assert(b[k2] == s@[lo + k2]);
                if k2 > kk {
                    let p = b.take(k2);
                    assert(p[kk] == b[kk]);
                    assert(!all_digits(p)) by {
                        assert(!is_ascii_digit(p[kk]));
                    }
                    assert forall|d2: int|
                        0 <= d2 < p.len() && #[trigger] p[d2] == '.' && p.len() > 1 && all_digits(p.take(d2))
                        implies !all_digits(p.skip(d2 + 1)) by {
                        if kk < d2 {
                            assert(p.take(d2)[kk] == p[kk]);
                        } else {
                            assert(p.skip(d2 + 1)[kk - d2 - 1] == p[kk]);
                        }
                    }
                }
                assert(k2 == kk);
            }
        }
        r
    }
}

fn spells(s: &Vec<char>, lo: usize, hi: usize, word: &Vec<char>) -> (r: bool)
    requires
        lo <= hi <= s.len(),
    ensures
        r == spells_word(s@.subrange(lo as int, hi as int), word@),
{
    if hi - lo != word.len() {
        return false;
    }
    let mut i: usize = 0;
    while i < word.len()
        invariant
            lo <= hi <= s.len(),
            hi - lo == word.len(),
            i <= word.len(),
            forall|j: int| 0 <= j < i ==> same_letter(s@[lo + j], word@[j]),
        decreases word.len() - i,
    {
        let c = s[lo + i];
        let w = word[i];
        if !(c == w || ((w as u32) >= 32 && (c as u32) == (w as u32) - 32)) {
            assert(!same_letter(s@.subrange(lo as int, hi as int)[i as int], word@[i as int]));
            return false;
        }
        i = i + 1;
    }
    assert forall|j: int| 0 <= j < hi - lo implies same_letter(
        #[trigger] s@.subrange(lo as int, hi as int)[j],
        word@[j],
    ) by {
        assert(s@.subrange(lo as int, hi as int)[j] == s@[lo + j]);
    }
    true
}

/// Whether `s[lo..hi]` is a float literal in the syntax that
/// `str::parse::<f64>` accepts (see [`is_float_literal`]).
pub fn is_float_text(s: &Vec<char>, lo: usize, hi: usize) -> (r: bool)
    requires
        lo <= hi <= s.len(),
    ensures
        r == is_float_literal(s@.subrange(lo as int, hi as int)),
{
    let ghost t = s@.subrange(lo as int, hi as int);
    let start: usize = if lo < hi && (s[lo] == '+' || s[lo] == '-') { lo + 1 } else { lo };
    assert(without_sign(t) =~= s@.subrange(start as int, hi as int));
    let inf: Vec<char> = vec!['i', 'n', 'f'];
    let infinity: Vec<char> = vec!['i', 'n', 'f', 'i', 'n', 'i', 't', 'y'];
    let nan: Vec<char> = vec!['n', 'a', 'n'];
    assert(inf@ =~= seq!['i', 'n', 'f']);
    assert(infinity@ =~= seq!['i', 'n', 'f', 'i', 'n', 'i', 't', 'y']);
    assert(nan@ =~= seq!['n', 'a', 'n']);
    spells(s, start, hi, &inf) || spells(s, start, hi, &infinity) || spells(s, start, hi, &nan)
        || number_ok(s, start, hi)
}

// ---------------------------------------------------------------------------
// The last space
// ---------------------------------------------------------------------------

/// Index of the last `' '` in `s`, or -1 when there is none.
pub open spec fn last_space(s: Seq<char>) -> int
    decreases s.len(),
{
    if s.len() == 0 {
        -1
    } else if s.last() == ' ' {
        s.len() - 1
    } else {
        last_space(s.drop_last())
    }
}

pub proof fn lemma_last_space(s: Seq<char>)
    ensures
        -1 <= last_space(s) < s.len(),
        last_space(s) >= 0 ==> s[last_space(s)] == ' ',
        forall|j: int| last_space(s) < j < s.len() ==> s[j] != ' ',
    decreases s.len(),
{
    if s.len() > 0 && s.last() != ' ' {
        lemma_last_space(s.drop_last());
        assert forall|j: int| last_space(s) < j < s.len() implies s[j] != ' ' by {
            if j < s.len() - 1 {
                assert(s.drop_last()[j] == s[j]);
            }
        }
    }
}

/// Index of the last `' '` in `s`, if there is one.
pub fn find_last_space(s: &Vec<char>) -> (r: Option<usize>)
    ensures
        match r {
            Some(k) => k == last_space(s@),
            None => last_space(s@) == -1,
        },
{
    let mut i = s.len();
    assert(s@.take(i as int) =~= s@);
    while i > 0
        invariant
            i <= s.len(),
            last_space(s@) == last_space(s@.take(i as int)),
        decreases i,
    {
        if s[i - 1] == ' ' {
            return Some(i - 1);
        }
        assert(s@.take(i as int).drop_last() =~= s@.take(i - 1));
        i = i - 1;
    }
    None
}

} // verus!
