//! Small text utilities shared by the lexer and the diagnostics: decimal
//! rendering of integers, padding, and byte-to-string conversion.
use vstd::prelude::*;
use vstd::utf8::*;
use vstd::string::StringSliceAdditionalSpecFns;

verus! {

broadcast use vstd::string::group_string_axioms;

/// The decimal digit character for `d` (0 through 9).
pub open spec fn digit_char(d: nat) -> char {
    if d == 0 { '0' }
    else if d == 1 { '1' }
    else if d == 2 { '2' }
    else if d == 3 { '3' }
    else if d == 4 { '4' }
    else if d == 5 { '5' }
    else if d == 6 { '6' }
    else if d == 7 { '7' }
    else if d == 8 { '8' }
    else { '9' }
}

/// The decimal digits of a natural number, most significant first, without
/// leading zeros (zero itself is "0").
pub open spec fn nat_digits(n: nat) -> Seq<char>
    decreases n,
{
    if n < 10 {
        seq![digit_char(n)]
    } else {
        nat_digits(n / 10).push(digit_char(n % 10))
    }
}

/// The decimal rendering of an integer, as `{}` prints it: a leading '-' for
/// negative values followed by the digits of the magnitude.
pub open spec fn int_decimal(n: int) -> Seq<char> {
    if n < 0 {
        seq!['-'] + nat_digits((-n) as nat)
    } else {
        nat_digits(n as nat)
    }
}

/// Ten to the power `k`.
pub open spec fn pow10(k: nat) -> nat
    decreases k,
{
    if k == 0 {
        1
    } else {
        10 * pow10((k - 1) as nat)
    }
}

/// A number below `10^k` has at most `k` digits.
pub proof fn lemma_digits_len(n: nat, k: nat)
    requires
        k >= 1,
        n < pow10(k),
    ensures
        nat_digits(n).len() <= k,
    decreases k,
{
    if n >= 10 {
        let p = pow10((k - 1) as nat);
        assert(k >= 2) by {
            if k == 1 {
                assert(pow10(1) == 10 * pow10(0));
            }
        }
        assert(n / 10 < p) by (nonlinear_arith)
            requires
                n < 10 * p,
        ;
        lemma_digits_len(n / 10, (k - 1) as nat);
    }
}

/// `n` copies of the character `c`.
pub open spec fn repeat_char(c: char, n: nat) -> Seq<char> {
    Seq::new(n, |_i: int| c)
}

/// A one-character string for a decimal digit.
pub fn digit_str(d: u64) -> (s: &'static str)
    requires
        d < 10,
    ensures
        s@ == seq![digit_char(d as nat)],
{
    proof {
        reveal_strlit("0");
        reveal_strlit("1");
        reveal_strlit("2");
        reveal_strlit("3");
        reveal_strlit("4");
        reveal_strlit("5");
        reveal_strlit("6");
        reveal_strlit("7");
        reveal_strlit("8");
        reveal_strlit("9");
    }
    if d == 0 {
        "0"
    } else if d == 1 {
        "1"
    } else if d == 2 {
        "2"
    } else if d == 3 {
        "3"
    } else if d == 4 {
        "4"
    } else if d == 5 {
        "5"
    } else if d == 6 {
        "6"
    } else if d == 7 {
        "7"
    } else if d == 8 {
        "8"
    } else {
        "9"
    }
}

/// Appends the decimal digits of `n`.
pub fn append_nat(out: &mut String, n: u64)
    ensures
        final(out)@ == old(out)@ + nat_digits(n as nat),
    decreases n,
{
    if n >= 10 {
        append_nat(out, n / 10);
    }
    out.append(digit_str(n % 10));
    proof {
        if n >= 10 {
            assert(nat_digits(n as nat) == nat_digits((n / 10) as nat).push(digit_char((n % 10) as nat)));
        }
    }
}

/// Appends the decimal rendering of `n`.
pub fn append_int(out: &mut String, n: i64)
    ensures
        final(out)@ == old(out)@ + int_decimal(n as int),
{
    if n < 0 {
        proof {
            reveal_strlit("-");
        }
        out.append("-");
        let m: u64 = (0i128 - n as i128) as u64;
        append_nat(out, m);
    } else {
        append_nat(out, n as u64);
    }
}

/// The decimal rendering of `n` as a new string.
pub fn int_to_string(n: i64) -> (s: String)
    ensures
        s@ == int_decimal(n as int),
{
    let mut s = String::new();
    append_int(&mut s, n);
    s
}

/// Appends `n` copies of `c`, where `c` is a one-character string.
pub fn append_repeat(out: &mut String, c: &str, n: usize)
    requires
        c@.len() == 1,
    ensures
        final(out)@ == old(out)@ + repeat_char(c@[0], n as nat),
{
    let mut i: usize = 0;
    while i < n
        invariant
            c@.len() == 1,
            i <= n,
            out@ == old(out)@ + repeat_char(c@[0], i as nat),
        decreases n - i,
    {
        out.append(c);
        i = i + 1;
        assert(out@ =~= old(out)@ + repeat_char(c@[0], i as nat));
    }
}

/// The text of `s` as an owned string.
pub fn owned(s: &str) -> (r: String)
    ensures
        r@ == s@,
{
    s.to_string()
}

/// Interprets bytes as UTF-8 text (`std::str::from_utf8`): the text they
/// encode, or `None` when they are not well-formed UTF-8.
#[verifier::external_body]
pub(crate) fn utf8_to_str(bytes: &[u8]) -> (r: Option<&str>)
    ensures
        r is Some <==> valid_utf8(bytes@),
        r matches Some(s) ==> s@ == decode_utf8(bytes@),
{
    std::str::from_utf8(bytes).ok()
}

/// Whether a character has the Unicode `Lowercase` property.
pub uninterp spec fn char_lowercase(c: char) -> bool;

/// Whether `c` is lowercase (`char::is_lowercase`): the name above stands
/// for the Unicode property; of an ASCII character it holds exactly for
/// `a` to `z`.
#[verifier::external_body]
pub(crate) fn is_lowercase_char(c: char) -> (r: bool)
    ensures
        r == char_lowercase(c),
        (c as u32) < 128 ==> (r <==> ('a' <= c && c <= 'z')),
{
    c.is_lowercase()
}

/// A one-character string holding `c` (`char::to_string`).
#[verifier::external_body]
pub(crate) fn char_to_string(c: char) -> (s: String)
    ensures
        s@ == seq![c],
{
    c.to_string()
}

/// Whether two texts are equal.
pub fn str_eq(a: &str, b: &str) -> (r: bool)
    ensures
        r == (a@ == b@),
{
    let x = a.as_bytes();
    let y = b.as_bytes();
    proof {
        encode_utf8_decode_utf8(a@);
        encode_utf8_decode_utf8(b@);
    }
    if x.len() != y.len() {
        return false;
    }
    let mut i: usize = 0;
    while i < x.len()
        invariant
            x@.len() == y@.len(),
            x@ == a.spec_bytes(),
            y@ == b.spec_bytes(),
            i <= x@.len(),
            forall|k: int| 0 <= k < i ==> x@[k] == y@[k],
        decreases x@.len() - i,
    {
        if x[i] != y[i] {
            assert(x@ != y@);
            return false;
        }
        i = i + 1;
    }
    assert(x@ =~= y@);
    true
}

/// `needle` occurs in `hay` starting at byte `i`.
pub open spec fn bytes_match_at(hay: Seq<u8>, needle: Seq<u8>, i: int) -> bool {
    0 <= i && i + needle.len() <= hay.len() && hay.subrange(i, i + needle.len()) == needle
}

/// `needle` occurs somewhere in `hay`.
pub open spec fn bytes_contain(hay: Seq<u8>, needle: Seq<u8>) -> bool {
    exists|i: int| bytes_match_at(hay, needle, i)
}

/// Whether `needle` occurs in `hay` at byte `i`.
pub fn bytes_match_at_exec(hay: &[u8], needle: &[u8], i: usize) -> (r: bool)
    ensures
        r == bytes_match_at(hay@, needle@, i as int),
{
    if i > hay.len() || needle.len() > hay.len() - i {
        return false;
    }
    let mut k: usize = 0;
    while k < needle.len()
        invariant
            i + needle@.len() <= hay@.len(),
            hay@.len() <= usize::MAX,
            k <= needle@.len(),
            forall|m: int| 0 <= m < k ==> hay@[i + m] == needle@[m],
        decreases needle@.len() - k,
    {
        if hay[i + k] != needle[k] {
            assert(hay@.subrange(i as int, i + needle@.len())[k as int] != needle@[k as int]);
            return false;
        }
        k = k + 1;
    }
    assert(hay@.subrange(i as int, i + needle@.len()) =~= needle@);
    true
}

/// Whether `needle` occurs in `hay`, comparing their UTF-8 encodings
/// (`str::contains` with a string pattern).
pub fn str_contains(hay: &str, needle: &str) -> (r: bool)
    ensures
        r == bytes_contain(hay.spec_bytes(), needle.spec_bytes()),
{
    let h = hay.as_bytes();
    let n = needle.as_bytes();
    let mut i: usize = 0;
    loop
        invariant
            h@ == hay.spec_bytes(),
            n@ == needle.spec_bytes(),
            i <= h@.len(),
            forall|k: int| 0 <= k < i ==> !bytes_match_at(h@, n@, k),
        ensures
            forall|k: int| 0 <= k <= h@.len() ==> !bytes_match_at(h@, n@, k),
        decreases h@.len() - i,
    {
        if bytes_match_at_exec(h, n, i) {
            return true;
        }
        if i == h.len() {
            break;
        }
        i = i + 1;
    }
    proof {
        if bytes_contain(h@, n@) {
            let k = choose|k: int| bytes_match_at(h@, n@, k);
            assert(k <= h@.len());
        }
    }
    false
}

/// Cutting valid UTF-8 just before an ASCII byte leaves valid UTF-8 on both
/// sides, and the part after that byte is valid too.
pub proof fn lemma_split_at_ascii(b: Seq<u8>, k: int)
    requires
        valid_utf8(b),
        0 <= k < b.len(),
        b[k] < 128,
    ensures
        valid_utf8(b.subrange(0, k)),
        valid_utf8(b.subrange(k + 1, b.len() as int)),
{
    is_char_boundary_iff_not_is_continuation_byte(b, k);
    valid_utf8_split(b, k);
    let rest = b.subrange(k, b.len() as int);
    assert(pop_first_scalar(rest) =~= b.subrange(k + 1, b.len() as int));
}

/// Index of the last `::` in `b`, or -1.
pub open spec fn last_path_sep(b: Seq<u8>) -> int
    decreases b.len(),
{
    if b.len() < 2 {
        -1
    } else if b[b.len() - 2] == 58 && b[b.len() - 1] == 58 {
        b.len() - 2
    } else {
        last_path_sep(b.drop_last())
    }
}

/// The bytes after the last `::` (all of them when there is none).
pub open spec fn last_path_segment(b: Seq<u8>) -> Seq<u8> {
    if last_path_sep(b) < 0 {
        b
    } else {
        b.subrange(last_path_sep(b) + 2, b.len() as int)
    }
}

proof fn lemma_last_path_sep(b: Seq<u8>)
    ensures
        -1 <= last_path_sep(b),
        last_path_sep(b) >= 0 ==> last_path_sep(b) + 2 <= b.len(),
        last_path_sep(b) >= 0 ==> b[last_path_sep(b)] == 58 && b[last_path_sep(b) + 1] == 58,
    decreases b.len(),
{
    if b.len() >= 2 && !(b[b.len() - 2] == 58 && b[b.len() - 1] == 58) {
        lemma_last_path_sep(b.drop_last());
    }
}

/// The part of a path after its last `::` (`rsplit("::").next()`).
pub fn last_segment(name: &str) -> (r: &str)
    ensures
        r.spec_bytes() == last_path_segment(name.spec_bytes()),
        r@ == decode_utf8(last_path_segment(name.spec_bytes())),
{
    let b = name.as_bytes();
    proof {
        encode_utf8_valid_utf8(name@);
        encode_utf8_decode_utf8(name@);
        lemma_last_path_sep(b@);
    }
    let mut j: usize = b.len();
    assert(b@.subrange(0, j as int) =~= b@);
    while j >= 2
        invariant
            j <= b@.len(),
            b@ == name.spec_bytes(),
            valid_utf8(b@),
            -1 <= last_path_sep(b@),
            last_path_sep(b@) >= 0 ==> last_path_sep(b@) + 2 <= b@.len(),
            last_path_sep(b@) == last_path_sep(b@.subrange(0, j as int)),
        decreases j,
    {
        assert(b@.subrange(0, j as int).drop_last() =~= b@.subrange(0, j - 1));
        if b[j - 2] == 58 && b[j - 1] == 58 {
            proof {
                lemma_split_at_ascii(b@, j - 1);
            }
            let tail = &b[j..b.len()];
            assert(last_path_sep(b@) == j - 2);
            assert(tail@ == last_path_segment(b@));
            match utf8_to_str(tail) {
                Some(t) => {
                    proof {
                        decode_utf8_encode_utf8(tail@);
                    }
                    return t;
                },
                None => {
                    return name;
                },
            }
        }
        j = j - 1;
    }
    proof {
        assert(last_path_sep(b@.subrange(0, j as int)) == -1);
    }
    name
}

/// The characters of a text.
pub fn str_chars(s: &str) -> (v: Vec<char>)
    ensures
        v@ == s@,
{
    let n = s.unicode_len();
    let mut v: Vec<char> = Vec::new();
    let mut i: usize = 0;
    while i < n
        invariant
            n == s@.len(),
            i <= n,
            v@ == s@.subrange(0, i as int),
        decreases n - i,
    {
        v.push(s.get_char(i));
        i = i + 1;
        assert(v@ =~= s@.subrange(0, i as int));
    }
    assert(v@ =~= s@);
    v
}

/// `s` with each non-overlapping occurrence of `pat`, scanned from the
/// left, replaced by `rep` (`str::replace` with a non-empty pattern).
pub open spec fn replace_seq(s: Seq<char>, pat: Seq<char>, rep: Seq<char>) -> Seq<char>
    decreases s.len(),
{
    if s.len() == 0 {
        s
    } else if pat.len() > 0 && pat.len() <= s.len() && s.take(pat.len() as int) == pat {
        rep + replace_seq(s.skip(pat.len() as int), pat, rep)
    } else {
        seq![s[0]] + replace_seq(s.skip(1), pat, rep)
    }
}

/// `s` with every occurrence of the non-empty pattern `pat` replaced by `rep`.
pub fn replace_text(s: &str, pat: &str, rep: &str) -> (r: String)
    requires
        pat@.len() > 0,
    ensures
        r@ == replace_seq(s@, pat@, rep@),
{
    let cs = str_chars(s);
    let ps = str_chars(pat);
    let mut r = String::new();
    let mut i: usize = 0;
    assert(s@.skip(0) =~= s@);
    while i < cs.len()
        invariant
            cs@ == s@,
            ps@ == pat@,
            pat@.len() > 0,
            i <= cs@.len(),
            r@ + replace_seq(s@.skip(i as int), pat@, rep@) == replace_seq(s@, pat@, rep@),
        decreases cs@.len() - i,
    {
        let ghost rest = s@.skip(i as int);
        let mut matched = ps.len() <= cs.len() - i;
        let mut k: usize = 0;
        while matched && k < ps.len()
            invariant
                cs@ == s@,
                ps@ == pat@,
                i <= cs@.len(),
                rest == s@.skip(i as int),
                k <= ps@.len(),
                matched ==> i + ps@.len() <= cs@.len(),
                cs@.len() <= usize::MAX,
                matched ==> forall|m: int| 0 <= m < k ==> rest[m] == pat@[m],
                !matched ==> !(pat@.len() <= rest.len() && rest.take(pat@.len() as int) == pat@),
            decreases ps@.len() - k + (if matched { 1int } else { 0int }),
        {
            if cs[i + k] != ps[k] {
                matched = false;
                proof {
                    if pat@.len() <= rest.len() && rest.take(pat@.len() as int) == pat@ {
                        assert(rest.take(pat@.len() as int)[k as int] == rest[k as int]);
                    }
                }
            } else {
                k = k + 1;
            }
        }
        if matched {
            assert(rest.take(pat@.len() as int) =~= pat@);
            r.append(rep);
            i = i + ps.len();
            assert(rest.skip(pat@.len() as int) =~= s@.skip(i as int));
        } else {
            r.append(char_to_string(cs[i]).as_str());
            i = i + 1;
            assert(rest.skip(1) =~= s@.skip(i as int));
        }
        assert(r@ + replace_seq(s@.skip(i as int), pat@, rep@) =~= replace_seq(s@, pat@, rep@));
    }
    assert(s@.skip(i as int) =~= Seq::<char>::empty());
    assert(r@ =~= replace_seq(s@, pat@, rep@));
    r
}

/// `b` ends with `suffix`.
pub open spec fn bytes_end_with(b: Seq<u8>, suffix: Seq<u8>) -> bool {
    suffix.len() <= b.len() && b.subrange(b.len() - suffix.len(), b.len() as int) == suffix
}

/// Whether the UTF-8 text `s` ends with `suffix` (`str::ends_with`).
pub fn str_ends_with(s: &str, suffix: &str) -> (r: bool)
    ensures
        r == bytes_end_with(s.spec_bytes(), suffix.spec_bytes()),
{
    let b = s.as_bytes();
    let x = suffix.as_bytes();
    if x.len() > b.len() {
        return false;
    }
    let r = bytes_match_at_exec(b, x, b.len() - x.len());
    assert(r == bytes_end_with(b@, x@));
    r
}

/// The byte with ASCII upper-case letters mapped to lower case.
pub open spec fn ascii_lower(c: u8) -> u8 {
    if 65 <= c <= 90 {
        (c + 32) as u8
    } else {
        c
    }
}

/// The bytes with ASCII upper-case letters mapped to lower case
/// (`str::to_ascii_lowercase`).
pub open spec fn ascii_lower_bytes(b: Seq<u8>) -> Seq<u8> {
    b.map_values(|c: u8| ascii_lower(c))
}

/// Whether the text, with ASCII letters lower-cased, ends with the bytes of
/// `suffix`.
pub fn lower_ends_with(s: &str, suffix: &[u8]) -> (r: bool)
    ensures
        r == bytes_end_with(ascii_lower_bytes(s.spec_bytes()), suffix@),
{
    let b = s.as_bytes();
    if suffix.len() > b.len() {
        return false;
    }
    let start = b.len() - suffix.len();
    let mut k: usize = 0;
    while k < suffix.len()
        invariant
            start + suffix@.len() == b@.len(),
            b@ == s.spec_bytes(),
            b@.len() <= usize::MAX,
            k <= suffix@.len(),
            forall|m: int| 0 <= m < k ==> ascii_lower(b@[start + m]) == suffix@[m],
        decreases suffix@.len() - k,
    {
        let c = b[start + k];
        let lc = if 65 <= c && c <= 90 {
            c + 32
        } else {
            c
        };
        if lc != suffix[k] {
            assert(ascii_lower_bytes(b@).subrange(start as int, b@.len() as int)[k as int] != suffix@[k as int]);
            return false;
        }
        k = k + 1;
    }
    assert(ascii_lower_bytes(b@).subrange(start as int, b@.len() as int) =~= suffix@);
    true
}

/// Items joined with `sep` between them.
pub open spec fn join_seq(items: Seq<Seq<char>>, sep: Seq<char>) -> Seq<char>
    decreases items.len(),
{
    if items.len() == 0 {
        Seq::empty()
    } else if items.len() == 1 {
        items[0]
    } else {
        join_seq(items.drop_last(), sep) + sep + items.last()
    }
}

/// Items joined with `sep` between them (`[String]::join`).
pub fn join_strings(items: &Vec<String>, sep: &str) -> (r: String)
    ensures
        r@ == join_seq(items@.map_values(|s: String| s@), sep@),
{
    let ghost views = items@.map_values(|s: String| s@);
    let mut r = String::new();
    let mut i: usize = 0;
    while i < items.len()
        invariant
            views == items@.map_values(|s: String| s@),
            i <= items@.len(),
            r@ == join_seq(views.take(i as int), sep@),
        decreases items@.len() - i,
    {
        if i > 0 {
            r.append(sep);
        }
        r.append(items[i].as_str());
        i = i + 1;
        assert(views.take(i as int).drop_last() =~= views.take(i - 1));
        assert(r@ =~= join_seq(views.take(i as int), sep@));
    }
    assert(views.take(i as int) =~= views);
    r
}

/// `k` is the position of the first byte `c` in `b`, or its length if
/// there is none.
pub open spec fn first_byte_at(b: Seq<u8>, c: u8, k: int) -> bool {
    &&& 0 <= k <= b.len()
    &&& k < b.len() ==> b[k] == c
    &&& forall|j: int| 0 <= j < k ==> b[j] != c
}

/// The bytes of `b` before the first byte `c` (all of `b` when there is
/// none).
pub open spec fn bytes_before(b: Seq<u8>, c: u8) -> Seq<u8> {
    b.subrange(0, choose|k: int| first_byte_at(b, c, k))
}

proof fn lemma_first_byte_unique(b: Seq<u8>, c: u8, k: int, m: int)
    requires
        first_byte_at(b, c, k),
        first_byte_at(b, c, m),
    ensures
        k == m,
{
    if k < m {
        assert(b[k] != c);
    } else if m < k {
        assert(b[m] != c);
    }
}

/// The part of a text before the first occurrence of an ASCII character
/// (`split(c).next()`).
pub fn text_before(s: &str, c: u8) -> (r: &str)
    requires
        c < 128,
    ensures
        r.spec_bytes() == bytes_before(s.spec_bytes(), c),
        r@ == decode_utf8(bytes_before(s.spec_bytes(), c)),
{
    let b = s.as_bytes();
    proof {
        encode_utf8_valid_utf8(s@);
        encode_utf8_decode_utf8(s@);
    }
    let mut k: usize = 0;
    while k < b.len() && b[k] != c
        invariant
            k <= b@.len(),
            b@ == s.spec_bytes(),
            forall|j: int| 0 <= j < k ==> b@[j] != c,
        decreases b@.len() - k,
    {
        k = k + 1;
    }
    proof {
        assert(first_byte_at(b@, c, k as int));
        let m = choose|m: int| first_byte_at(b@, c, m);
        lemma_first_byte_unique(b@, c, k as int, m);
    }
    if k == b.len() {
        assert(b@.subrange(0, k as int) =~= b@);
        return s;
    }
    proof {
        lemma_split_at_ascii(b@, k as int);
    }
    let head = &b[0..k];
    match utf8_to_str(head) {
        Some(t) => {
            proof {
                decode_utf8_encode_utf8(head@);
            }
            t
        },
        None => s,
    }
}

/// A Unicode white-space character (`char::is_whitespace`).
pub open spec fn is_white_space(c: char) -> bool {
    ('\u{9}' <= c <= '\u{d}') || c == ' ' || c == '\u{85}' || c == '\u{a0}' || c == '\u{1680}' || ('\u{2000}' <= c
        <= '\u{200a}') || c == '\u{2028}' || c == '\u{2029}' || c == '\u{202f}' || c == '\u{205f}' || c == '\u{3000}'
}

/// Whether a character is Unicode white space.
pub fn char_is_white_space(c: char) -> (r: bool)
    ensures
        r == is_white_space(c),
{
    ('\u{9}' <= c && c <= '\u{d}') || c == ' ' || c == '\u{85}' || c == '\u{a0}' || c == '\u{1680}' || ('\u{2000}' <= c
        && c <= '\u{200a}') || c == '\u{2028}' || c == '\u{2029}' || c == '\u{202f}' || c == '\u{205f}' || c == '\u{3000}'
}

/// The first position at or after `i` that is not white space (the length
/// when there is none).
pub open spec fn skip_white(s: Seq<char>, i: int) -> int
    decreases s.len() - i,
{
    if 0 <= i < s.len() && is_white_space(s[i]) {
        skip_white(s, i + 1)
    } else {
        i
    }
}

/// The first position at or after `i` holding `c`, or -1.
pub open spec fn find_char(s: Seq<char>, c: char, i: int) -> int
    decreases s.len() - i,
{
    if i < 0 || i >= s.len() {
        -1
    } else if s[i] == c {
        i
    } else {
        find_char(s, c, i + 1)
    }
}

/// The text of characters `from` to `to` of `v`.
pub fn chars_to_string(v: &Vec<char>, from: usize, to: usize) -> (s: String)
    requires
        from <= to <= v@.len(),
    ensures
        s@ == v@.subrange(from as int, to as int),
{
    let mut s = String::new();
    let mut i = from;
    while i < to
        invariant
            from <= i <= to,
            to <= v@.len(),
            s@ == v@.subrange(from as int, i as int),
        decreases to - i,
    {
        let one = char_to_string(v[i]);
        s.append(one.as_str());
        i = i + 1;
        assert(s@ =~= v@.subrange(from as int, i as int));
    }
    s
}

/// The first position at or after `i` that is not white space.
pub fn skip_white_exec(v: &Vec<char>, i: usize) -> (r: usize)
    requires
        i <= v@.len(),
    ensures
        r == skip_white(v@, i as int),
        i <= r <= v@.len(),
{
    let mut j = i;
    while j < v.len() && char_is_white_space(v[j])
        invariant
            i <= j <= v@.len(),
            skip_white(v@, i as int) == skip_white(v@, j as int),
        decreases v@.len() - j,
    {
        j = j + 1;
    }
    j
}

/// The first position at or after `i` holding `c`, or `None`.
pub fn find_char_exec(v: &Vec<char>, c: char, i: usize) -> (r: Option<usize>)
    requires
        i <= v@.len(),
    ensures
        match r {
            Some(k) => find_char(v@, c, i as int) == k && i <= k < v@.len() && v@[k as int] == c,
            None => find_char(v@, c, i as int) == -1,
        },
{
    let mut j = i;
    while j < v.len()
        invariant
            i <= j <= v@.len(),
            find_char(v@, c, i as int) == find_char(v@, c, j as int),
        decreases v@.len() - j,
    {
        if v[j] == c {
            return Some(j);
        }
        j = j + 1;
    }
    None
}

} // verus!
