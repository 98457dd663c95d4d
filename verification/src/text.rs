//! Character-level text utilities: whitespace, tokens, lines and decimal
//! numbers, each with a spec function stating what it computes.

use vstd::prelude::*;

verus! {

/// `char::is_whitespace`: the Unicode `White_Space` property.
pub open spec fn is_ws(c: char) -> bool {
    let u = c as u32;
    ||| 0x09 <= u <= 0x0D
    ||| u == 0x20
    ||| u == 0x85
    ||| u == 0xA0
    ||| u == 0x1680
    ||| 0x2000 <= u <= 0x200A
    ||| u == 0x2028
    ||| u == 0x2029
    ||| u == 0x202F
    ||| u == 0x205F
    ||| u == 0x3000
}

pub fn is_ws_char(c: char) -> (r: bool)
    ensures
        r == is_ws(c),
{
    let u = c as u32;
    (0x09 <= u && u <= 0x0D) || u == 0x20 || u == 0x85 || u == 0xA0 || u == 0x1680 || (0x2000 <= u
        && u <= 0x200A) || u == 0x2028 || u == 0x2029 || u == 0x202F || u == 0x205F || u == 0x3000
}

/// The characters of `s`, in order.
pub fn str_chars(s: &str) -> (v: Vec<char>)
    ensures
        v@ == s@,
{
    let mut v: Vec<char> = Vec::new();
    for c in it: s.chars()
        invariant
            v@ == it.seq().take(it.index() as int),
    {
        v.push(c);
    }
    v
}

/// Whether two character lists are equal.
pub fn chars_eq(a: &Vec<char>, b: &Vec<char>) -> (r: bool)
    ensures
        r == (a@ == b@),
{
    if a.len() != b.len() {
        return false;
    }
    let mut k: usize = 0;
    while k < a.len()
        invariant
            k <= a@.len(),
            a@.len() == b@.len(),
            forall|j: int| 0 <= j < k ==> a@[j] == b@[j],
        decreases a@.len() - k,
    {
        if a[k] != b[k] {
            return false;
        }
        k = k + 1;
    }
    assert(a@ =~= b@);
    true
}

/// Whether two strings hold the same characters.
pub fn str_eq(a: &str, b: &str) -> (r: bool)
    ensures
        r == (a@ == b@),
{
    let x = str_chars(a);
    let y = str_chars(b);
    chars_eq(&x, &y)
}

/// `String::from_iter` over a slice of characters.
#[verifier::external_body]
pub fn chars_to_string(v: &Vec<char>) -> (s: String)
    ensures
        s@ == v@,
{
    v.iter().collect()
}

/// Append the characters of `s` to `out`.
pub fn push_str(out: &mut Vec<char>, s: &str)
    ensures
        final(out)@ == old(out)@ + s@,
{
    let ghost start = out@;
    for c in it: s.chars()
        invariant
            out@ == start + it.seq().take(it.index() as int),
    {
        out.push(c);
    }
}


// ── Tokens ──────────────────────────────────────────────────────────────────

/// The word collected so far, as a one-element list when it is non-empty.
pub open spec fn emit(cur: Seq<char>) -> Seq<Seq<char>> {
    if cur.len() > 0 {
        seq![cur]
    } else {
        seq![]
    }
}

/// Whitespace-separated words of `s`, where `cur` is a word already begun.
pub open spec fn toks(s: Seq<char>, cur: Seq<char>) -> Seq<Seq<char>>
    decreases s.len(),
{
    if s.len() == 0 {
        emit(cur)
    } else if is_ws(s[0]) {
        emit(cur) + toks(s.drop_first(), seq![])
    } else {
        toks(s.drop_first(), cur.push(s[0]))
    }
}

/// `str::split_whitespace`: the maximal runs of non-whitespace characters.
pub open spec fn tokens(s: Seq<char>) -> Seq<Seq<char>> {
    toks(s, seq![])
}

/// The views of a list of character vectors.
pub open spec fn views(v: Seq<Vec<char>>) -> Seq<Seq<char>> {
    v.map_values(|x: Vec<char>| x@)
}

pub proof fn lemma_views_push(v: Seq<Vec<char>>, x: Vec<char>)
    ensures
        views(v.push(x)) == views(v).push(x@),
{
    assert(views(v.push(x)) =~= views(v).push(x@));
}

/// `str::split_whitespace`, collected.
pub fn tokenize(s: &Vec<char>) -> (out: Vec<Vec<char>>)
    ensures
        views(out@) == tokens(s@),
{
    let mut out: Vec<Vec<char>> = Vec::new();
    let mut cur: Vec<char> = Vec::new();
    let n = s.len();
    let mut i: usize = 0;
    assert(s@.subrange(0, n as int) =~= s@);
    while i < n
        invariant
            n == s@.len(),
            i <= n,
            tokens(s@) == views(out@) + toks(s@.subrange(i as int, n as int), cur@),
        decreases n - i,
    {
        let c = s[i];
        let ghost rest = s@.subrange(i as int, n as int);
        assert(rest.drop_first() =~= s@.subrange(i + 1, n as int));
        if is_ws_char(c) {
            let ghost pre = views(out@);
            let ghost cv = cur@;
            if cur.len() > 0 {
                proof {
                    lemma_views_push(out@, cur);
                }
                out.push(cur);
            }
            assert(views(out@) == pre + emit(cv));
            cur = Vec::new();
            assert(cur@ =~= Seq::<char>::empty());
        } else {
            cur.push(c);
        }
        i = i + 1;
    }
    if cur.len() > 0 {
        proof {
            lemma_views_push(out@, cur);
        }
        out.push(cur);
    }
    assert(s@.subrange(n as int, n as int) =~= Seq::<char>::empty());
    out
}


// ── Lines ───────────────────────────────────────────────────────────────────

/// A line ended by `\n` loses one trailing `\r`.
pub open spec fn strip_cr(l: Seq<char>) -> Seq<char> {
    if l.len() > 0 && l.last() == '\r' {
        l.drop_last()
    } else {
        l
    }
}

/// Lines of `s`, where `cur` is a line already begun.
pub open spec fn lns(s: Seq<char>, cur: Seq<char>) -> Seq<Seq<char>>
    decreases s.len(),
{
    if s.len() == 0 {
        emit(cur)
    } else if s[0] == '\n' {
        seq![strip_cr(cur)] + lns(s.drop_first(), seq![])
    } else {
        lns(s.drop_first(), cur.push(s[0]))
    }
}

/// `str::lines`: split at `\n` (dropping a `\r` just before it); the final
/// line ending is optional.
pub open spec fn lines(s: Seq<char>) -> Seq<Seq<char>> {
    lns(s, seq![])
}

/// `str::lines`, collected.
pub fn split_lines(s: &Vec<char>) -> (out: Vec<Vec<char>>)
    ensures
        views(out@) == lines(s@),
{
    let mut out: Vec<Vec<char>> = Vec::new();
    let mut cur: Vec<char> = Vec::new();
    let n = s.len();
    let mut i: usize = 0;
    assert(s@.subrange(0, n as int) =~= s@);
    while i < n
        invariant
            n == s@.len(),
            i <= n,
            lines(s@) == views(out@) + lns(s@.subrange(i as int, n as int), cur@),
        decreases n - i,
    {
        let c = s[i];
        let ghost rest = s@.subrange(i as int, n as int);
        assert(rest.drop_first() =~= s@.subrange(i + 1, n as int));
        if c == '\n' {
            let ghost pre = views(out@);
            let l = cur.len();
            if l > 0 && cur[l - 1] == '\r' {
                cur.pop();
            }
            proof {
                lemma_views_push(out@, cur);
            }
            out.push(cur);
            cur = Vec::new();
            assert(cur@ =~= Seq::<char>::empty());
        } else {
            cur.push(c);
        }
        i = i + 1;
    }
    if cur.len() > 0 {
        proof {
            lemma_views_push(out@, cur);
        }
        out.push(cur);
    }
    assert(s@.subrange(n as int, n as int) =~= Seq::<char>::empty());
    out
}

// ── Block comments ──────────────────────────────────────────────────────────

/// Index of the first occurrence of the pair `a b` in `s`.
pub open spec fn find_pair(s: Seq<char>, a: char, b: char) -> Option<int>
    decreases s.len(),
{
    if s.len() < 2 {
        None
    } else if s[0] == a && s[1] == b {
        Some(0)
    } else {
        match find_pair(s.drop_first(), a, b) {
            Some(i) => Some(i + 1),
            None => None,
        }
    }
}

pub proof fn lemma_find_pair(s: Seq<char>, a: char, b: char)
    ensures
        find_pair(s, a, b) matches Some(i) ==> 0 <= i && i + 2 <= s.len() && s[i] == a && s[i
            + 1] == b,
        find_pair(s, a, b) matches Some(i) ==> forall|j: int|
            0 <= j < i ==> !(#[trigger] s[j] == a && s[j + 1] == b),
        find_pair(s, a, b) is None ==> forall|j: int|
            0 <= j && j + 1 < s.len() ==> !(#[trigger] s[j] == a && s[j + 1] == b),
    decreases s.len(),
{
    if s.len() >= 2 && !(s[0] == a && s[1] == b) {
        lemma_find_pair(s.drop_first(), a, b);
        assert forall|j: int| 1 <= j && j + 1 < s.len() implies #[trigger] s[j] == s.drop_first()[j - 1] && s[j + 1] == s.drop_first()[j] by {}
    }
}

/// Remove every `/* … */` block, leaving one space in its place; an
/// unterminated comment is kept verbatim after that space.
pub open spec fn strip_comments(s: Seq<char>) -> Seq<char>
    decreases s.len(),
{
    if s.len() < 2 {
        s
    } else if s[0] == '/' && s[1] == '*' {
        let after = s.skip(2);
        match find_pair(after, '*', '/') {
            Some(e) => {
                proof {
                    lemma_find_pair(after, '*', '/');
                }
                seq![' '] + strip_comments(after.skip(e + 2))
            },
            None => seq![' ', '/', '*'] + after,
        }
    } else {
        seq![s[0]] + strip_comments(s.drop_first())
    }
}

/// First `j >= from` with `s[j] == a && s[j+1] == b`.
fn find_pair_from(s: &Vec<char>, from: usize, a: char, b: char) -> (r: Option<usize>)
    requires
        from <= s@.len(),
    ensures
        r matches Some(k) ==> find_pair(s@.skip(from as int), a, b) == Some(k - from) && k >= from,
        r is None ==> find_pair(s@.skip(from as int), a, b) is None,
    decreases s@.len() - from,
{
    let n = s.len();
    if n - from < 2 {
        return None;
    }
    let ghost t = s@.skip(from as int);
    assert(t.drop_first() =~= s@.skip(from + 1));
    if s[from] == a && s[from + 1] == b {
        Some(from)
    } else {
        find_pair_from(s, from + 1, a, b)
    }
}

/// `strip_comments`, computed.
pub fn strip_block_comments(s: &Vec<char>) -> (out: Vec<char>)
    ensures
        out@ == strip_comments(s@),
{
    let mut out: Vec<char> = Vec::new();
    let n = s.len();
    let mut i: usize = 0;
    assert(s@.skip(0) =~= s@);
    while i < n
        invariant
            n == s@.len(),
            i <= n,
            strip_comments(s@) == out@ + strip_comments(s@.skip(i as int)),
        decreases n - i,
    {
        let ghost rest = s@.skip(i as int);
        if i + 1 < n && s[i] == '/' && s[i + 1] == '*' {
            let ghost after = rest.skip(2);
            assert(after =~= s@.skip(i + 2));
            match find_pair_from(s, i + 2, '*', '/') {
                Some(k) => {
                    proof {
                        lemma_find_pair(after, '*', '/');
                    }
                    assert(after.skip(k - i - 2 + 2) =~= s@.skip(k + 2));
                    out.push(' ');
                    i = k + 2;
                    assert(out@ =~= out@.drop_last() + seq![' ']);
                },
                None => {
                    let ghost pre = out@;
                    out.push(' ');
                    out.push('/');
                    out.push('*');
                    let mut j = i + 2;
                    while j < n
                        invariant
                            i + 2 <= j <= n,
                            n == s@.len(),
                            out@ == pre + seq![' ', '/', '*'] + s@.subrange(i + 2, j as int),
                        decreases n - j,
                    {
                        out.push(s[j]);
                        j = j + 1;
                        assert(out@ =~= pre + seq![' ', '/', '*'] + s@.subrange(i + 2, j as int));
                    }
                    assert(s@.subrange(i + 2, n as int) =~= after);
                    assert(s@.skip(n as int) =~= Seq::<char>::empty());
                    i = n;
                },
            }
        } else {
            assert(rest.drop_first() =~= s@.skip(i + 1));
            out.push(s[i]);
            i = i + 1;
        }
    }
    assert(s@.skip(n as int) =~= Seq::<char>::empty());
    out
}


// ── Decimal numbers ─────────────────────────────────────────────────────────

pub open spec fn is_digit(c: char) -> bool {
    '0' <= c && c <= '9'
}

pub open spec fn digit_val(c: char) -> nat {
    (c as int - '0' as int) as nat
}

pub open spec fn all_digits(s: Seq<char>) -> bool {
    forall|i: int| 0 <= i < s.len() ==> is_digit(#[trigger] s[i])
}

/// The number written by the decimal digits `s`.
pub open spec fn digits_val(s: Seq<char>) -> nat
    decreases s.len(),
{
    if s.len() == 0 {
        0
    } else {
        digits_val(s.drop_last()) * 10 + digit_val(s.last())
    }
}

/// An optionally signed decimal integer, as `str::parse` reads one.
pub open spec fn parse_int(s: Seq<char>) -> Option<int> {
    if s.len() == 0 {
        None
    } else if s[0] == '+' || s[0] == '-' {
        let d = s.drop_first();
        if d.len() > 0 && all_digits(d) {
            Some(
                if s[0] == '-' {
                    -digits_val(d)
                } else {
                    digits_val(d) as int
                },
            )
        } else {
            None
        }
    } else if all_digits(s) {
        Some(digits_val(s) as int)
    } else {
        None
    }
}

/// `str::parse::<i64>`.
pub open spec fn parse_i64(s: Seq<char>) -> Option<i64> {
    match parse_int(s) {
        Some(v) => if i64::MIN <= v <= i64::MAX {
            Some(v as i64)
        } else {
            None
        },
        None => None,
    }
}

/// `str::parse::<u32>`: a `-` sign is rejected even before zero.
pub open spec fn parse_u32(s: Seq<char>) -> Option<u32> {
    if s.len() > 0 && s[0] == '-' {
        None
    } else {
        match parse_int(s) {
            Some(v) => if 0 <= v <= u32::MAX {
                Some(v as u32)
            } else {
                None
            },
            None => None,
        }
    }
}

/// `str::parse::<u64>`: as for `u32`, with the bound of `u64`.
pub open spec fn parse_u64(s: Seq<char>) -> Option<u64> {
    if s.len() > 0 && s[0] == '-' {
        None
    } else {
        match parse_int(s) {
            Some(v) => if 0 <= v <= u64::MAX {
                Some(v as u64)
            } else {
                None
            },
            None => None,
        }
    }
}

/// `str::parse::<usize>`: as for `u32`, with the bound of `usize`.
pub open spec fn parse_usize(s: Seq<char>) -> Option<usize> {
    if s.len() > 0 && s[0] == '-' {
        None
    } else {
        match parse_int(s) {
            Some(v) => if 0 <= v <= usize::MAX {
                Some(v as usize)
            } else {
                None
            },
            None => None,
        }
    }
}

pub open spec fn digit_char(d: nat) -> char {
    (d + '0' as int) as char
}

/// Decimal digits of `n`, without leading zeros.
pub open spec fn dec_nat(n: nat) -> Seq<char>
    decreases n,
{
    if n < 10 {
        seq![digit_char(n)]
    } else {
        dec_nat(n / 10).push(digit_char(n % 10))
    }
}

/// `format!("{}", n)` for an integer.
pub open spec fn dec_int(n: int) -> Seq<char> {
    if n < 0 {
        seq!['-'] + dec_nat((-n) as nat)
    } else {
        dec_nat(n as nat)
    }
}

fn digit_to_char(d: u64) -> (c: char)
    requires
        d < 10,
    ensures
        c == digit_char(d as nat),
{
    let b: u8 = 48u8 + d as u8;
    b as char
}

/// Append the decimal digits of `n`.
pub fn push_u64(out: &mut Vec<char>, n: u64)
    ensures
        final(out)@ == old(out)@ + dec_nat(n as nat),
    decreases n,
{
    if n >= 10 {
        push_u64(out, n / 10);
    }
    out.push(digit_to_char(n % 10));
    assert(final(out)@ =~= old(out)@ + dec_nat(n as nat));
}

/// Append `format!("{}", n)`.
pub fn push_i64(out: &mut Vec<char>, n: i64)
    ensures
        final(out)@ == old(out)@ + dec_int(n as int),
{
    if n < 0 {
        out.push('-');
        let m: u64 = (0i128 - n as i128) as u64;
        push_u64(out, m);
        assert(final(out)@ =~= old(out)@ + dec_int(n as int));
    } else {
        push_u64(out, n as u64);
    }
}

pub proof fn lemma_digits_val_mono(s: Seq<char>, k: int)
    requires
        0 <= k <= s.len(),
    ensures
        digits_val(s.take(k)) <= digits_val(s),
    decreases s.len() - k,
{
    if k < s.len() {
        lemma_digits_val_mono(s, k + 1);
        assert(s.take(k + 1).drop_last() =~= s.take(k));
        assert(digits_val(s.take(k + 1)) == digits_val(s.take(k)) * 10 + digit_val(
            s.take(k + 1).last(),
        ));
    } else {
        assert(s.take(k) =~= s);
    }
}

/// The value of the digits `s[from..]`, when they are all digits, there is
/// at least one and the value fits in a `u64`.
fn parse_digits(s: &Vec<char>, from: usize) -> (r: Option<u64>)
    requires
        from <= s@.len(),
    ensures
        r matches Some(v) ==> from < s@.len() && all_digits(s@.skip(from as int)) && v
            == digits_val(s@.skip(from as int)),
        r is None ==> !(from < s@.len() && all_digits(s@.skip(from as int)) && digits_val(
            s@.skip(from as int),
        ) <= u64::MAX),
{
    let n = s.len();
    if from == n {
        return None;
    }
    let ghost t = s@.skip(from as int);
    let mut acc: u64 = 0;
    let mut i = from;
    assert(t.take(0) =~= Seq::<char>::empty());
    while i < n
        invariant
            from <= i <= n,
            n == s@.len(),
            t == s@.skip(from as int),
            all_digits(t.take(i - from)),
            acc == digits_val(t.take(i - from)),
        decreases n - i,
    {
        let c = s[i];
        assert(c == t[i - from]);
        if !('0' <= c && c <= '9') {
            return None;
        }
        let d = (c as u32 - 48) as u64;
        assert(t.take(i - from + 1).drop_last() =~= t.take(i - from));
        if acc > (u64::MAX - d) / 10 {
            proof {
                lemma_digits_val_mono(t, i - from + 1);
            }
            assert(t.take(i - from + 1).last() == c);
            return None;
        }
        acc = acc * 10 + d;
        i = i + 1;
        assert(all_digits(t.take(i - from)));
    }
    assert(t.take(n - from) =~= t);
    Some(acc)
}

/// `str::parse::<i64>` on characters.
pub fn parse_i64_chars(s: &Vec<char>) -> (r: Option<i64>)
    ensures
        r == parse_i64(s@),
{
    let n = s.len();
    if n == 0 {
        return None;
    }
    let c0 = s[0];
    if c0 == '+' || c0 == '-' {
        assert(s@.drop_first() =~= s@.skip(1));
        match parse_digits(s, 1) {
            Some(v) => {
                if c0 == '-' {
                    if v <= 9223372036854775808u64 {
                        Some((0i128 - v as i128) as i64)
                    } else {
                        None
                    }
                } else {
                    if v <= 9223372036854775807u64 {
                        Some(v as i64)
                    } else {
                        None
                    }
                }
            },
            None => None,
        }
    } else {
        assert(s@.skip(0) =~= s@);
        match parse_digits(s, 0) {
            Some(v) => {
                if v <= 9223372036854775807u64 {
                    Some(v as i64)
                } else {
                    None
                }
            },
            None => None,
        }
    }
}

/// `str::parse::<u32>` on characters.
pub fn parse_u32_chars(s: &Vec<char>) -> (r: Option<u32>)
    ensures
        r == parse_u32(s@),
{
    let n = s.len();
    if n == 0 {
        return None;
    }
    let c0 = s[0];
    if c0 == '-' {
        return None;
    }
    let from: usize = if c0 == '+' {
        1
    } else {
        0
    };
    assert(s@.drop_first() =~= s@.skip(1));
    assert(s@.skip(0) =~= s@);
    match parse_digits(s, from) {
        Some(v) => {
            if v <= 4294967295u64 {
                Some(v as u32)
            } else {
                None
            }
        },
        None => None,
    }
}

/// `str::parse::<u64>` on characters.
pub fn parse_u64_chars(s: &Vec<char>) -> (r: Option<u64>)
    ensures
        r == parse_u64(s@),
{
    let n = s.len();
    if n == 0 {
        return None;
    }
    let c0 = s[0];
    if c0 == '-' {
        return None;
    }
    let from: usize = if c0 == '+' {
        1
    } else {
        0
    };
    assert(s@.drop_first() =~= s@.skip(1));
    assert(s@.skip(0) =~= s@);
    parse_digits(s, from)
}

/// `str::parse::<usize>` on characters.
pub fn parse_usize_chars(s: &Vec<char>) -> (r: Option<usize>)
    ensures
        r == parse_usize(s@),
{
    let n = s.len();
    if n == 0 {
        return None;
    }
    let c0 = s[0];
    if c0 == '-' {
        return None;
    }
    let from: usize = if c0 == '+' {
        1
    } else {
        0
    };
    assert(s@.drop_first() =~= s@.skip(1));
    assert(s@.skip(0) =~= s@);
    match parse_digits(s, from) {
        Some(v) => {
            if v <= usize::MAX as u64 {
                Some(v as usize)
            } else {
                None
            }
        },
        None => None,
    }
}

} // verus!
