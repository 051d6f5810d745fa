use vstd::prelude::*;

verus! {

/// The whitespace characters stripped from the ends of an identifier.
pub open spec fn is_space(c: char) -> bool {
    c == ' ' || c == '\t' || c == '\n' || c == '\r'
}

/// ASCII lower-casing of one character; everything else is unchanged.
pub open spec fn lower_char(c: char) -> char {
    match c {
        'A' => 'a',
        'B' => 'b',
        'C' => 'c',
        'D' => 'd',
        'E' => 'e',
        'F' => 'f',
        'G' => 'g',
        'H' => 'h',
        'I' => 'i',
        'J' => 'j',
        'K' => 'k',
        'L' => 'l',
        'M' => 'm',
        'N' => 'n',
        'O' => 'o',
        'P' => 'p',
        'Q' => 'q',
        'R' => 'r',
        'S' => 's',
        'T' => 't',
        'U' => 'u',
        'V' => 'v',
        'W' => 'w',
        'X' => 'x',
        'Y' => 'y',
        'Z' => 'z',
        _ => c,
    }
}

/// Lower-casing with dashes folded to underscores, as metric names use.
pub open spec fn fold_char(c: char) -> char {
    if c == '-' {
        '_'
    } else {
        lower_char(c)
    }
}

/// How many whitespace characters the text starts with.
pub open spec fn leading_ws(s: Seq<char>) -> int
    decreases s.len(),
{
    if s.len() > 0 && is_space(s[0]) {
        1 + leading_ws(s.skip(1))
    } else {
        0
    }
}

/// How many whitespace characters the text ends with, not counting
/// those that `leading_ws` already covers.
pub open spec fn trailing_ws(s: Seq<char>) -> int
    decreases s.len(),
{
    if s.len() > 0 && is_space(s.last()) {
        1 + trailing_ws(s.take(s.len() - 1))
    } else {
        0
    }
}

/// The text with surrounding whitespace removed.
pub open spec fn trimmed(s: Seq<char>) -> Seq<char> {
    if leading_ws(s) == s.len() {
        Seq::empty()
    } else {
        s.subrange(leading_ws(s), s.len() - trailing_ws(s))
    }
}

/// The identifier form of a text: trimmed, ASCII lower-cased.
pub open spec fn norm_ident(s: Seq<char>) -> Seq<char> {
    trimmed(s).map_values(|c: char| lower_char(c))
}

/// The metric-name form of a text: trimmed, lower-cased, dashes folded.
pub open spec fn norm_metric_ident(s: Seq<char>) -> Seq<char> {
    trimmed(s).map_values(|c: char| fold_char(c))
}

/// When the first `k` characters are whitespace and the next one is not,
/// `k` is exactly the leading-whitespace count.
proof fn lemma_leading_ws_is(s: Seq<char>, k: int)
    requires
        0 <= k <= s.len(),
        forall|j: int| 0 <= j < k ==> is_space(#[trigger] s[j]),
        k < s.len() ==> !is_space(s[k]),
    ensures
        leading_ws(s) == k,
    decreases s.len(),
{
    if s.len() > 0 && is_space(s[0]) {
        assert(k > 0);
        lemma_leading_ws_is(s.skip(1), k - 1);
    }
}

/// The mirror statement for the trailing-whitespace count.
proof fn lemma_trailing_ws_is(s: Seq<char>, k: int)
    requires
        0 <= k <= s.len(),
        forall|j: int| s.len() - k <= j < s.len() ==> is_space(#[trigger] s[j]),
        k < s.len() ==> !is_space(s[s.len() - k - 1]),
    ensures
        trailing_ws(s) == k,
    decreases s.len(),
{
    if s.len() > 0 && is_space(s.last()) {
        assert(k > 0);
        lemma_trailing_ws_is(s.take(s.len() - 1), k - 1);
        assert(trailing_ws(s) == 1 + trailing_ws(s.take(s.len() - 1)));
    }
}

/// Lexicographic order on texts, by code point: a proper prefix comes
/// first, otherwise the first differing character decides.
pub open spec fn lex_lt(a: Seq<char>, b: Seq<char>) -> bool
    decreases a.len(),
{
    if b.len() == 0 {
        false
    } else if a.len() == 0 {
        true
    } else if a[0] < b[0] {
        true
    } else if a[0] > b[0] {
        false
    } else {
        lex_lt(a.skip(1), b.skip(1))
    }
}

/// Two texts are ordered one way, the other, or equal.
pub proof fn lemma_lex_total(a: Seq<char>, b: Seq<char>)
    ensures
        lex_lt(a, b) || lex_lt(b, a) || a == b,
    decreases a.len(),
{
    if a.len() > 0 && b.len() > 0 && a[0] == b[0] {
        lemma_lex_total(a.skip(1), b.skip(1));
        if a.skip(1) == b.skip(1) {
            assert(a.skip(1).len() == b.skip(1).len());
            assert forall|i: int| 0 <= i < a.len() implies a[i] == b[i] by {
                if i > 0 {
                    assert(a.skip(1)[i - 1] == a[i]);
                    assert(b.skip(1)[i - 1] == b[i]);
                }
            }
            assert(a =~= b);
        }
    }
}

/// The lexicographic order is transitive.
pub proof fn lemma_lex_trans(a: Seq<char>, b: Seq<char>, c: Seq<char>)
    requires
        lex_lt(a, b),
        lex_lt(b, c),
    ensures
        lex_lt(a, c),
    decreases a.len(),
{
    if a.len() > 0 && b.len() > 0 && c.len() > 0 && a[0] == b[0] && b[0] == c[0] {
        lemma_lex_trans(a.skip(1), b.skip(1), c.skip(1));
    }
}

/// The lexicographic order is irreflexive.
pub proof fn lemma_lex_irrefl(a: Seq<char>)
    ensures
        !lex_lt(a, a),
    decreases a.len(),
{
    if a.len() > 0 {
        lemma_lex_irrefl(a.skip(1));
    }
}

/// Whether one text comes strictly before another in lexicographic
/// order.
pub fn str_lt(a: &str, b: &str) -> (r: bool)
    ensures
        r == lex_lt(a@, b@),
{
    let an = a.unicode_len();
    let bn = b.unicode_len();
    let mut i: usize = 0;
    proof {
        assert(a@.skip(0) =~= a@);
        assert(b@.skip(0) =~= b@);
    }
    while i < an && i < bn
        invariant
            0 <= i <= an,
            0 <= i <= bn,
            an == a@.len(),
            bn == b@.len(),
            lex_lt(a@, b@) == lex_lt(a@.skip(i as int), b@.skip(i as int)),
        decreases an - i,
    {
        let ca = a.get_char(i);
        let cb = b.get_char(i);
        proof {
            assert(a@.skip(i as int)[0] == a@[i as int]);
            assert(b@.skip(i as int)[0] == b@[i as int]);
            assert(a@.skip(i as int).skip(1) =~= a@.skip(i as int + 1));
            assert(b@.skip(i as int).skip(1) =~= b@.skip(i as int + 1));
        }
        if ca < cb {
            return true;
        }
        if ca > cb {
            return false;
        }
        i = i + 1;
    }
    proof {
        assert(a@.skip(i as int).len() == an - i);
        assert(b@.skip(i as int).len() == bn - i);
    }
    an < bn
}

/// Whether two texts hold the same characters.
pub fn str_eq(a: &str, b: &str) -> (r: bool)
    ensures
        r == (a@ == b@),
{
    let an = a.unicode_len();
    let bn = b.unicode_len();
    if an != bn {
        proof {
            assert(a@ != b@);
        }
        return false;
    }
    let mut i: usize = 0;
    while i < an
        invariant
            0 <= i <= an,
            an == a@.len(),
            an == b@.len(),
            forall|j: int| 0 <= j < i ==> a@[j] == b@[j],
        decreases an - i,
    {
        if a.get_char(i) != b.get_char(i) {
            proof {
                assert(a@[i as int] != b@[i as int]);
            }
            return false;
        }
        i = i + 1;
    }
    proof {
        assert(a@ =~= b@);
    }
    true
}

/// Executable ASCII lower-casing of one character.
pub fn lower_char_ex(c: char) -> (r: char)
    ensures
        r == lower_char(c),
{
    match c {
        'A' => 'a',
        'B' => 'b',
        'C' => 'c',
        'D' => 'd',
        'E' => 'e',
        'F' => 'f',
        'G' => 'g',
        'H' => 'h',
        'I' => 'i',
        'J' => 'j',
        'K' => 'k',
        'L' => 'l',
        'M' => 'm',
        'N' => 'n',
        'O' => 'o',
        'P' => 'p',
        'Q' => 'q',
        'R' => 'r',
        'S' => 's',
        'T' => 't',
        'U' => 'u',
        'V' => 'v',
        'W' => 'w',
        'X' => 'x',
        'Y' => 'y',
        'Z' => 'z',
        _ => c,
    }
}

fn is_space_ex(c: char) -> (r: bool)
    ensures
        r == is_space(c),
{
    c == ' ' || c == '\t' || c == '\n' || c == '\r'
}

/// The characters of the identifier form of a text (trimmed and
/// lower-cased; dashes folded to underscores when `fold_dashes` holds).
pub fn normalize_chars(s: &str, fold_dashes: bool) -> (r: Vec<char>)
    ensures
        fold_dashes ==> r@ == norm_metric_ident(s@),
        !fold_dashes ==> r@ == norm_ident(s@),
{
    let n = s.unicode_len();
    let mut start: usize = 0;
    while start < n && is_space_ex(s.get_char(start))
        invariant
            0 <= start <= n,
            n == s@.len(),
            forall|j: int| 0 <= j < start ==> is_space(#[trigger] s@[j]),
        decreases n - start,
    {
        start = start + 1;
    }
    proof {
        lemma_leading_ws_is(s@, start as int);
    }
    if start == n {
        let r: Vec<char> = Vec::new();
        proof {
            assert(trimmed(s@) =~= Seq::<char>::empty());
            assert(r@ =~= trimmed(s@).map_values(|c: char| lower_char(c)));
            assert(r@ =~= trimmed(s@).map_values(|c: char| fold_char(c)));
        }
        return r;
    }
    let mut end: usize = n;
    while end > start && is_space_ex(s.get_char(end - 1))
        invariant
            start <= end <= n,
            n == s@.len(),
            start < n,
            !is_space(s@[start as int]),
            forall|j: int| end <= j < n ==> is_space(#[trigger] s@[j]),
        decreases end,
    {
        end = end - 1;
    }
    proof {
        assert(end > start);
        lemma_trailing_ws_is(s@, n - end);
        assert(trimmed(s@) =~= s@.subrange(start as int, end as int));
    }
    let mut out: Vec<char> = Vec::new();
    let mut i: usize = start;
    while i < end
        invariant
            start <= i <= end <= n,
            n == s@.len(),
            out@.len() == i - start,
            forall|j: int|
                0 <= j < out@.len() ==> out@[j] == (if fold_dashes {
                    fold_char(s@[start + j])
                } else {
                    lower_char(s@[start + j])
                }),
        decreases end - i,
    {
        let c = s.get_char(i);
        let mapped = if fold_dashes {
            if c == '-' {
                '_'
            } else {
                lower_char_ex(c)
            }
        } else {
            lower_char_ex(c)
        };
        out.push(mapped);
        i = i + 1;
    }
    proof {
        if fold_dashes {
            assert(out@ =~= norm_metric_ident(s@));
        } else {
            assert(out@ =~= norm_ident(s@));
        }
    }
    out
}

/// The character for one decimal digit.
pub open spec fn digit_char(d: int) -> char {
    if d == 0 {
        '0'
    } else if d == 1 {
        '1'
    } else if d == 2 {
        '2'
    } else if d == 3 {
        '3'
    } else if d == 4 {
        '4'
    } else if d == 5 {
        '5'
    } else if d == 6 {
        '6'
    } else if d == 7 {
        '7'
    } else if d == 8 {
        '8'
    } else if d == 9 {
        '9'
    } else {
        '?'
    }
}

/// The decimal digits of a number, most significant first.
pub open spec fn dec_digits(n: nat) -> Seq<char>
    decreases n,
{
    if n < 10 {
        seq![digit_char(n as int)]
    } else {
        dec_digits(n / 10) + seq![digit_char((n % 10) as int)]
    }
}

/// The decimal form of a signed number.
pub open spec fn int_str(v: int) -> Seq<char> {
    if v < 0 {
        seq!['-'] + dec_digits((-v) as nat)
    } else {
        dec_digits(v as nat)
    }
}

/// The up-to-four fraction digits of a fixed-point remainder, with
/// trailing zeros dropped (the remainder is between 1 and 9999).
pub open spec fn frac_digits(f: nat) -> Seq<char> {
    let ds = seq![
        digit_char((f / 1000) as int),
        digit_char(((f / 100) % 10) as int),
        digit_char(((f / 10) % 10) as int),
        digit_char((f % 10) as int),
    ];
    if f % 10 != 0 {
        ds
    } else if f % 100 != 0 {
        ds.take(3)
    } else if f % 1000 != 0 {
        ds.take(2)
    } else {
        ds.take(1)
    }
}

/// The shortest decimal form of a fixed-point quantity: the integer
/// part, then a point and the non-zero fraction digits, if any.
pub open spec fn fp_str(v: int) -> Seq<char> {
    if v < 0 {
        seq!['-'] + fp_str_mag((-v) as nat)
    } else {
        fp_str_mag(v as nat)
    }
}

pub open spec fn fp_str_mag(m: nat) -> Seq<char> {
    if m % 10000 == 0 {
        dec_digits(m / 10000)
    } else {
        dec_digits(m / 10000) + seq!['.'] + frac_digits(m % 10000)
    }
}

/// The decimal form of a fixed-point quantity with exactly four
/// fraction digits.
pub open spec fn fp_str4(v: int) -> Seq<char> {
    let sign: Seq<char> = if v < 0 {
        seq!['-']
    } else {
        Seq::empty()
    };
    let m = if v < 0 {
        (-v) as nat
    } else {
        v as nat
    };
    sign + dec_digits(m / 10000) + seq!['.'] + seq![
        digit_char(((m % 10000) / 1000) as int),
        digit_char((((m % 10000) / 100) % 10) as int),
        digit_char((((m % 10000) / 10) % 10) as int),
        digit_char(((m % 10000) % 10) as int),
    ]
}

/// A fixed-point quantity rounded to the nearest whole number, halves
/// away from zero.
pub open spec fn fp_round0(v: int) -> int {
    if v >= 0 {
        (v + 5000) / 10000
    } else {
        -(((-v) + 5000) / 10000)
    }
}

/// The whole-number decimal form of a fixed-point quantity.
pub open spec fn fp_str0(v: int) -> Seq<char> {
    int_str(fp_round0(v))
}

/// A fixed-point magnitude rounded to thousandths, halves up.
pub open spec fn fp_round3(m: nat) -> int {
    (m + 5) as int / 10
}

/// The decimal form of a fixed-point quantity with exactly three
/// fraction digits, rounded at the dropped digit.
pub open spec fn fp_str3(v: int) -> Seq<char> {
    let sign: Seq<char> = if v < 0 {
        seq!['-']
    } else {
        Seq::empty()
    };
    let m3 = fp_round3(
        if v < 0 {
            (-v) as nat
        } else {
            v as nat
        },
    );
    sign + dec_digits((m3 / 1000) as nat) + seq!['.'] + seq![
        digit_char(((m3 % 1000) / 100) as int),
        digit_char((((m3 % 1000) / 10) % 10) as int),
        digit_char(((m3 % 1000) % 10) as int),
    ]
}

/// One decimal digit as text.
fn digit_str(d: u64) -> (r: &'static str)
    requires
        d < 10,
    ensures
        r@ =~= seq![digit_char(d as int)],
{
    proof {
        reveal_strlit("0");
        reveal_strlit("1");
        reveal_strlit("2");
        reveal_strlit("3");
        reveal_strlit("4");
        reveal_strlit("5");
        reveal_strlit("6");
        reveal_strlit("7");
        reveal_strlit("8");
        reveal_strlit("9");
    }
    match d {
        0 => "0",
        1 => "1",
        2 => "2",
        3 => "3",
        4 => "4",
        5 => "5",
        6 => "6",
        7 => "7",
        8 => "8",
        _ => "9",
    }
}

/// The decimal form of an unsigned number.
pub fn u64_to_string(n: u64) -> (r: String)
    ensures
        r@ == dec_digits(n as nat),
    decreases n,
{
    if n < 10 {
        digit_str(n).to_owned()
    } else {
        let mut s = u64_to_string(n / 10);
        s.append(digit_str(n % 10));
        s
    }
}

/// The decimal form of a signed number.
pub fn i64_to_string(v: i64) -> (r: String)
    ensures
        r@ == int_str(v as int),
{
    if v < 0 {
        let mag: u64 = (-(v as i128)) as u64;
        let mut s = String::from_str("-");
        proof {
            reveal_strlit("-");
            assert("-"@ =~= seq!['-']);
        }
        s.append(u64_to_string(mag).as_str());
        s
    } else {
        u64_to_string(v as u64)
    }
}

/// The shortest decimal form of a fixed-point quantity.
pub fn fp_to_string(v: i64) -> (r: String)
    ensures
        r@ == fp_str(v as int),
{
    let neg = v < 0;
    let mag: u64 = if v < 0 {
        (-(v as i128)) as u64
    } else {
        v as u64
    };
    let whole = mag / 10000;
    let frac = mag % 10000;
    let mut s = if neg {
        proof {
            reveal_strlit("-");
            assert("-"@ =~= seq!['-']);
        }
        let mut t = String::from_str("-");
        t.append(u64_to_string(whole).as_str());
        t
    } else {
        u64_to_string(whole)
    };
    if frac != 0 {
        proof {
            reveal_strlit(".");
            assert("."@ =~= seq!['.']);
        }
        s.append(".");
        s.append(digit_str(frac / 1000));
        if frac % 10 != 0 {
            s.append(digit_str((frac / 100) % 10));
            s.append(digit_str((frac / 10) % 10));
            s.append(digit_str(frac % 10));
        } else if frac % 100 != 0 {
            s.append(digit_str((frac / 100) % 10));
            s.append(digit_str((frac / 10) % 10));
        } else if frac % 1000 != 0 {
            s.append(digit_str((frac / 100) % 10));
        }
        proof {
            assert(s@ =~= fp_str(v as int));
        }
    } else {
        proof {
            assert(s@ =~= fp_str(v as int));
        }
    }
    s
}

/// The decimal form of a fixed-point quantity with exactly four
/// fraction digits.
#[verifier::rlimit(60)]
pub fn fp_to_string4(v: i64) -> (r: String)
    ensures
        r@ == fp_str4(v as int),
{
    let neg = v < 0;
    let mag: u64 = if v < 0 {
        (-(v as i128)) as u64
    } else {
        v as u64
    };
    let whole = mag / 10000;
    let frac = mag % 10000;
    let mut s = if neg {
        proof {
            reveal_strlit("-");
            assert("-"@ =~= seq!['-']);
        }
        let mut t = String::from_str("-");
        t.append(u64_to_string(whole).as_str());
        t
    } else {
        u64_to_string(whole)
    };
    proof {
        reveal_strlit(".");
        assert("."@ =~= seq!['.']);
    }
    s.append(".");
    s.append(digit_str(frac / 1000));
    s.append(digit_str((frac / 100) % 10));
    s.append(digit_str((frac / 10) % 10));
    s.append(digit_str(frac % 10));
    proof {
        assert(s@ =~= fp_str4(v as int));
    }
    s
}

/// The whole-number decimal form of a fixed-point quantity.
pub fn fp_to_string0(v: i64) -> (r: String)
    ensures
        r@ == fp_str0(v as int),
{
    if v >= 0 {
        let rounded = (v as u64 + 5000) / 10000;
        u64_to_string(rounded)
    } else {
        let mag: u64 = (-(v as i128)) as u64;
        let rounded = (mag + 5000) / 10000;
        if rounded == 0 {
            proof {
                reveal_strlit("0");
                assert("0"@ =~= seq!['0']);
            }
            String::from_str("0")
        } else {
            let mut s = String::from_str("-");
            proof {
                reveal_strlit("-");
                assert("-"@ =~= seq!['-']);
            }
            s.append(u64_to_string(rounded).as_str());
            s
        }
    }
}

/// The decimal form of a fixed-point quantity with exactly three
/// fraction digits, rounded at the dropped digit.
#[verifier::rlimit(60)]
pub fn fp_to_string3(v: i64) -> (r: String)
    ensures
        r@ == fp_str3(v as int),
{
    let neg = v < 0;
    let mag: u64 = if v < 0 {
        (-(v as i128)) as u64
    } else {
        v as u64
    };
    let m3 = (mag + 5) / 10;
    let whole = m3 / 1000;
    let frac = m3 % 1000;
    proof {
        assert(m3 as int == fp_round3(mag as nat));
        assert(whole as int == fp_round3(mag as nat) / 1000);
        assert(frac as int == fp_round3(mag as nat) % 1000);
        assert(frac < 1000);
    }
    let mut s = if neg {
        proof {
            reveal_strlit("-");
            assert("-"@ =~= seq!['-']);
        }
        let mut t = String::from_str("-");
        t.append(u64_to_string(whole).as_str());
        t
    } else {
        u64_to_string(whole)
    };
    proof {
        reveal_strlit(".");
        assert("."@ =~= seq!['.']);
    }
    s.append(".");
    s.append(digit_str(frac / 100));
    s.append(digit_str((frac / 10) % 10));
    s.append(digit_str(frac % 10));
    proof {
        assert(s@ =~= fp_str3(v as int));
    }
    s
}

/// Relies on `String`'s `FromIterator` over `char`: collecting characters
/// yields the string holding exactly those characters.
#[verifier::external_body]
pub(crate) fn chars_to_string(chars: &Vec<char>) -> (r: String)
    ensures
        r@ == chars@,
{
    chars.iter().collect()
}

} // verus!
