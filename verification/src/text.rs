//! Text as sequences of characters: the small vocabulary of string operations
//! that the rest of the crate states its contracts with.

use vstd::prelude::*;

verus! {

/// `String::push`: appends one character.
pub assume_specification[ String::push ](s: &mut String, c: char)
    ensures
        final(s)@ == old(s)@.push(c),
;

/// The characters of `s`, in order.
pub fn chars_of(s: &str) -> (r: Vec<char>)
    ensures
        r@ == s@,
{
    let mut r: Vec<char> = Vec::new();
    for c in it: s.chars()
        invariant
            it.seq() == s@,
            r@ == s@.take(it.index()),
    {
        r.push(c);
        assert(r@ =~= s@.take(it.index() + 1));
    }
    assert(s@.take(s@.len() as int) =~= s@);
    r
}

/// Whether two texts hold the same characters.
pub fn text_eq(a: &str, b: &str) -> (r: bool)
    ensures
        r == (a@ == b@),
{
    let x = a.to_owned();
    let y = b.to_owned();
    x == y
}

/// The decimal digit of a value below ten.
pub open spec fn digit(d: int) -> char {
    (48 + d) as char
}

/// The decimal numeral of a natural number, without leading zeros.
pub open spec fn dec_text(n: nat) -> Seq<char>
    decreases n,
{
    if n < 10 {
        seq![digit(n as int)]
    } else {
        dec_text(n / 10).push(digit((n % 10) as int))
    }
}

/// The decimal numeral of an integer, with a minus sign where it is negative.
pub open spec fn int_text(n: int) -> Seq<char> {
    if n < 0 {
        "-"@ + dec_text((-n) as nat)
    } else {
        dec_text(n as nat)
    }
}

/// The decimal numeral of `n`.
pub fn dec(n: u64) -> (r: String)
    ensures
        r@ == dec_text(n as nat),
{
    dec_wide(n as u128)
}

/// The decimal numeral of a wide number.
pub fn dec_wide(n: u128) -> (r: String)
    ensures
        r@ == dec_text(n as nat),
    decreases n,
{
    let mut r = if n < 10 {
        String::new()
    } else {
        dec_wide(n / 10)
    };
    let d: u8 = (n % 10) as u8;
    r.push((48u8 + d) as char);
    assert(r@ =~= dec_text(n as nat));
    r
}

/// The decimal numeral of a signed number.
pub fn dec_i32(n: i32) -> (r: String)
    ensures
        r@ == int_text(n as int),
{
    if n < 0 {
        let mut r = "-".to_owned();
        r.append(&dec((-(n as i64)) as u64));
        r
    } else {
        dec(n as u64)
    }
}

/// The first `n` characters of `s`, or all of it when it is shorter.
pub open spec fn prefix_of(s: Seq<char>, n: int) -> Seq<char> {
    if s.len() <= n {
        s
    } else {
        s.take(n)
    }
}

/// The first `n` characters of `s`, or all of it when it is shorter.
pub fn take_chars(s: &str, n: usize) -> (r: String)
    ensures
        r@ == prefix_of(s@, n as int),
        s@.len() >= n ==> r@ == s@.take(n as int),
{
    let chars = chars_of(s);
    let mut r = String::new();
    let mut i: usize = 0;
    while i < chars.len() && i < n
        invariant
            chars@ == s@,
            i <= chars.len(),
            i <= n,
            r@ == s@.take(i as int),
        decreases chars.len() - i,
    {
        r.push(chars[i]);
        i = i + 1;
        assert(r@ =~= s@.take(i as int));
    }
    assert(s@.take(s@.len() as int) =~= s@);
    r
}

/// The first position from `i` on that holds `c`, or the length.
pub open spec fn find_from(s: Seq<char>, c: char, i: int) -> int
    decreases s.len() - i,
{
    if i >= s.len() {
        s.len() as int
    } else if s[i] == c {
        i
    } else {
        find_from(s, c, i + 1)
    }
}

/// The first position that holds `c`, or the length.
pub open spec fn find(s: Seq<char>, c: char) -> int {
    find_from(s, c, 0)
}

/// Everything before the found position differs from `c`.
pub proof fn find_from_facts(s: Seq<char>, c: char, i: int)
    requires
        0 <= i <= s.len(),
    ensures
        i <= find_from(s, c, i) <= s.len(),
        find_from(s, c, i) < s.len() ==> s[find_from(s, c, i)] == c,
        forall|k: int| i <= k < find_from(s, c, i) ==> #[trigger] s[k] != c,
    decreases s.len() - i,
{
    if i < s.len() && s[i] != c {
        find_from_facts(s, c, i + 1);
    }
}

/// The found position is the only one with these properties.
pub proof fn find_from_unique(s: Seq<char>, c: char, i: int, k: int)
    requires
        0 <= i <= k <= s.len(),
        k < s.len() ==> s[k] == c,
        forall|j: int| i <= j < k ==> #[trigger] s[j] != c,
    ensures
        find_from(s, c, i) == k,
    decreases k - i,
{
    if i < k {
        assert(s[i] != c);
        find_from_unique(s, c, i + 1, k);
    }
}

/// The first position from `from` on that holds `c`, or the length.
pub fn find_char(chars: &Vec<char>, c: char, from: usize) -> (r: usize)
    requires
        from <= chars.len(),
    ensures
        r == find_from(chars@, c, from as int),
        from <= r <= chars.len(),
{
    let mut k: usize = from;
    while k < chars.len()
        invariant
            from <= k <= chars.len(),
            forall|j: int| from <= j < k ==> #[trigger] chars@[j] != c,
        decreases chars.len() - k,
    {
        if chars[k] == c {
            proof {
                find_from_unique(chars@, c, from as int, k as int);
            }
            return k;
        }
        k = k + 1;
    }
    proof {
        find_from_unique(chars@, c, from as int, k as int);
    }
    k
}

/// The text between two positions.
pub fn slice_text(chars: &Vec<char>, from: usize, to: usize) -> (r: String)
    requires
        from <= to <= chars.len(),
    ensures
        r@ == chars@.subrange(from as int, to as int),
{
    let mut r = String::new();
    let mut i: usize = from;
    while i < to
        invariant
            from <= i <= to <= chars.len(),
            r@ == chars@.subrange(from as int, i as int),
        decreases to - i,
    {
        r.push(chars[i]);
        i = i + 1;
        assert(r@ =~= chars@.subrange(from as int, i as int));
    }
    r
}

/// The text before the first line break; the carriage return of a
/// two-character line break belongs to the break.
pub open spec fn first_line_of(s: Seq<char>) -> Seq<char> {
    let k = find(s, '\n');
    if 0 < k < s.len() && s[k - 1] == '\r' {
        s.take(k - 1)
    } else {
        s.take(k)
    }
}

/// The first line of `s`.
pub fn first_line(s: &str) -> (r: String)
    ensures
        r@ == first_line_of(s@),
{
    let chars = chars_of(s);
    let k: usize = find_char(&chars, '\n', 0);
    if 0 < k && k < chars.len() && chars[k - 1] == '\r' {
        let r = slice_text(&chars, 0, k - 1);
        assert(s@.subrange(0, k - 1) =~= s@.take(k - 1));
        r
    } else {
        let r = slice_text(&chars, 0, k);
        assert(s@.subrange(0, k as int) =~= s@.take(k as int));
        r
    }
}

/// At most `n` characters of `s`, with `mark` appended where some were cut off.
pub open spec fn clipped(s: Seq<char>, n: int, mark: Seq<char>) -> Seq<char> {
    if s.len() > n {
        s.take(n) + mark
    } else {
        s
    }
}

/// At most `n` characters of `s`, with `mark` appended where some were cut off.
pub fn clip(s: &str, n: usize, mark: &str) -> (r: String)
    ensures
        r@ == clipped(s@, n as int, mark@),
{
    let chars = chars_of(s);
    if chars.len() > n {
        let mut r = take_chars(s, n);
        r.append(mark);
        r
    } else {
        s.to_owned()
    }
}

/// Whether `s` begins with `prefix`.
pub open spec fn begins_with(s: Seq<char>, prefix: Seq<char>) -> bool {
    prefix.len() <= s.len() && s.take(prefix.len() as int) == prefix
}

/// Whether `s` begins with `prefix`.
pub fn starts_with(s: &str, prefix: &str) -> (r: bool)
    ensures
        r == begins_with(s@, prefix@),
{
    let a = chars_of(s);
    let b = chars_of(prefix);
    if b.len() > a.len() {
        return false;
    }
    let mut i: usize = 0;
    while i < b.len()
        invariant
            i <= b.len() <= a.len(),
            a@ == s@,
            b@ == prefix@,
            forall|k: int| 0 <= k < i ==> a@[k] == b@[k],
        decreases b.len() - i,
    {
        if a[i] != b[i] {
            assert(s@.take(prefix@.len() as int)[i as int] != prefix@[i as int]);
            return false;
        }
        i = i + 1;
    }
    assert(s@.take(prefix@.len() as int) =~= prefix@);
    true
}

/// Whether the first character of `s` is `c`.
pub open spec fn first_is(s: Seq<char>, c: char) -> bool {
    s.len() > 0 && s[0] == c
}

/// Whether the first character of `s` is `c`.
pub fn starts_with_char(s: &str, c: char) -> (r: bool)
    ensures
        r == first_is(s@, c),
{
    !s.is_empty() && s.get_char(0) == c
}

/// Whether `c` occurs in `s`.
pub fn contains_char(s: &str, c: char) -> (r: bool)
    ensures
        r == s@.contains(c),
{
    let chars = chars_of(s);
    let k: usize = find_char(&chars, c, 0);
    proof {
        find_from_facts(s@, c, 0);
        if k < s@.len() {
            assert(s@[k as int] == c);
        }
    }
    k < chars.len()
}

/// The pieces of `s` between the occurrences of `c`: one more than there are
/// occurrences, possibly empty.
pub open spec fn split_on(s: Seq<char>, c: char) -> Seq<Seq<char>>
    decreases s.len(),
{
    let k = find(s, c);
    if 0 <= k < s.len() {
        seq![s.take(k)] + split_on(s.skip(k + 1), c)
    } else {
        seq![s]
    }
}

/// There is always at least one piece.
pub proof fn split_nonempty(s: Seq<char>, c: char)
    ensures
        split_on(s, c).len() > 0,
{
}

/// The pieces of `s` between the occurrences of `c`.
pub fn split_char(s: &str, c: char) -> (r: Vec<String>)
    ensures
        crate::order::text_views(r@) == split_on(s@, c),
{
    let chars = chars_of(s);
    let mut r: Vec<String> = Vec::new();
    let mut start: usize = 0;
    let ghost mut acc: Seq<Seq<char>> = Seq::empty();
    assert(s@.skip(0) =~= s@);
    assert(acc + split_on(s@, c) =~= split_on(s@, c));
    loop
        invariant
            chars@ == s@,
            start <= chars.len(),
            acc == crate::order::text_views(r@),
            acc + split_on(s@.skip(start as int), c) == split_on(s@, c),
        decreases chars.len() - start,
    {
        let k: usize = find_char(&chars, c, start);
        let ghost rest = s@.skip(start as int);
        proof {
            find_from_facts(s@, c, start as int);
            assert forall|j: int| 0 <= j < k - start implies #[trigger] rest[j] != c by {
                assert(rest[j] == s@[start + j]);
            }
            if k < s@.len() {
                assert(rest[k - start] == c);
            }
            find_from_unique(rest, c, 0, k - start);
        }
        let ghost before = r@;
        r.push(slice_text(&chars, start, k));
        proof {
            assert(s@.subrange(start as int, k as int) =~= rest.take(k - start));
            assert(crate::order::text_views(r@) =~= acc.push(rest.take(k - start)));
            if k < s@.len() {
                assert(rest.skip(k - start + 1) =~= s@.skip(k + 1));
                assert(acc.push(rest.take(k - start)) + split_on(s@.skip(k + 1), c) =~= acc
                    + split_on(rest, c));
            } else {
                assert(rest.take(k - start) =~= rest);
                assert(acc.push(rest) =~= acc + split_on(rest, c));
            }
            acc = acc.push(rest.take(k - start));
        }
        if k >= chars.len() {
            return r;
        }
        start = k + 1;
    }
}

/// A character of the Unicode general category "control".
pub open spec fn control(c: char) -> bool {
    (c as u32) < 0x20 || 0x7f <= (c as u32) < 0xa0
}

/// Whether `c` is a control character.
pub fn is_control(c: char) -> (r: bool)
    ensures
        r == control(c),
{
    let n: u32 = c as u32;
    n < 0x20 || (0x7f <= n && n < 0xa0)
}

/// The uppercase hexadecimal digit of a value below sixteen.
pub open spec fn upper_hex_digit(v: int) -> char {
    if v < 10 {
        (48 + v) as char
    } else {
        (55 + v) as char
    }
}

/// The uppercase hexadecimal numeral of `n`, padded with zeros to `width` digits.
pub open spec fn upper_hex_text(n: nat, width: nat) -> Seq<char>
    decreases n, width,
{
    if n < 16 && width <= 1 {
        seq![upper_hex_digit(n as int)]
    } else {
        upper_hex_text(
            n / 16,
            if width == 0 {
                0
            } else {
                (width - 1) as nat
            },
        ).push(upper_hex_digit((n % 16) as int))
    }
}

/// The uppercase hexadecimal numeral of `n`, padded with zeros to `width` digits.
pub fn upper_hex(n: u32, width: u32) -> (r: String)
    ensures
        r@ == upper_hex_text(n as nat, width as nat),
    decreases n, width,
{
    let mut r = if n < 16 && width <= 1 {
        String::new()
    } else {
        upper_hex(
            n / 16,
            if width == 0 {
                0
            } else {
                width - 1
            },
        )
    };
    let v: u8 = (n % 16) as u8;
    r.push(
        if v < 10 {
            (48u8 + v) as char
        } else {
            (55u8 + v) as char
        },
    );
    assert(r@ =~= upper_hex_text(n as nat, width as nat));
    r
}

/// The number that a decimal numeral stands for.
pub open spec fn dec_value(s: Seq<char>) -> int
    decreases s.len(),
{
    if s.len() == 0 {
        0
    } else {
        10 * dec_value(s.drop_last()) + (s.last() as int - 48)
    }
}

/// A decimal numeral stands for the number it was made from.
pub proof fn dec_round_trip(n: nat)
    ensures
        dec_value(dec_text(n)) == n,
    decreases n,
{
    if n < 10 {
        assert(dec_text(n).drop_last() =~= Seq::<char>::empty());
        assert(dec_value(dec_text(n).drop_last()) == 0);
    } else {
        dec_round_trip(n / 10);
        assert(dec_text(n).drop_last() =~= dec_text(n / 10));
    }
}

/// A text of which only what precedes the first `c` is known.
pub proof fn find_in_prefix(a: Seq<char>, b: Seq<char>, c: char)
    requires
        !a.contains(c),
        first_is(b, c),
    ensures
        find(a + b, c) == a.len(),
{
    let s = a + b;
    assert forall|j: int| 0 <= j < a.len() implies #[trigger] s[j] != c by {
        assert(s[j] == a[j]);
        assert(a.contains(a[j]));
    }
    assert(s[a.len() as int] == b[0]);
    find_from_unique(s, c, 0, a.len() as int);
}

/// The text as the standard library's `Debug` renders it: in double quotes,
/// with escapes.
pub uninterp spec fn debug_text(s: Seq<char>) -> Seq<char>;

/// A printable ASCII character that needs no escape between double quotes.
pub open spec fn plain(c: char) -> bool {
    ' ' <= c <= '~' && c != '"' && c != '\\'
}

/// Calls `<str as Debug>::fmt` through `format!`.
///
/// Claims that the rendering depends on the text alone, and that a text of
/// plain characters is only put between double quotes. Which other characters
/// are escaped, and how, is left unsaid.
#[verifier::external_body]
pub(crate) fn debug_string(s: &str) -> (r: String)
    ensures
        r@ == debug_text(s@),
        (forall|i: int| 0 <= i < s@.len() ==> plain(#[trigger] s@[i])) ==> r@ == seq!['"'] + s@
            + seq!['"'],
{
    format!("{:?}", s)
}

/// `s` with every occurrence of `pat`, found from left to right without
/// overlap, replaced by `rep`.
pub open spec fn replaced(s: Seq<char>, pat: Seq<char>, rep: Seq<char>) -> Seq<char>
    decreases s.len(),
{
    if pat.len() == 0 || s.len() == 0 {
        s
    } else if begins_with(s, pat) {
        rep + replaced(s.skip(pat.len() as int), pat, rep)
    } else {
        seq![s[0]] + replaced(s.skip(1), pat, rep)
    }
}

/// Whether `pat` occurs in `chars` at position `at`.
fn occurs_at(chars: &Vec<char>, pat: &Vec<char>, at: usize) -> (r: bool)
    requires
        at <= chars.len(),
    ensures
        r == begins_with(chars@.skip(at as int), pat@),
{
    if pat.len() > chars.len() - at {
        return false;
    }
    let ghost rest = chars@.skip(at as int);
    let mut i: usize = 0;
    while i < pat.len()
        invariant
            i <= pat.len(),
            at + pat.len() <= chars.len(),
            rest == chars@.skip(at as int),
            forall|k: int| 0 <= k < i ==> rest[k] == pat@[k],
        decreases pat.len() - i,
    {
        assert(rest[i as int] == chars@[at + i]);
        if chars[at + i] != pat[i] {
            assert(rest.take(pat@.len() as int)[i as int] != pat@[i as int]);
            return false;
        }
        i = i + 1;
    }
    assert(rest.take(pat@.len() as int) =~= pat@);
    true
}

/// `s` with every occurrence of `pat` replaced by `rep`.
pub fn replace_all(s: &str, pat: &str, rep: &str) -> (r: String)
    requires
        pat@.len() > 0,
    ensures
        r@ == replaced(s@, pat@, rep@),
{
    let chars = chars_of(s);
    let p = chars_of(pat);
    let mut r = String::new();
    let mut i: usize = 0;
    assert(s@.skip(0) =~= s@);
    assert(r@ + replaced(s@, pat@, rep@) =~= replaced(s@, pat@, rep@));
    while i < chars.len()
        invariant
            chars@ == s@,
            p@ == pat@,
            pat@.len() > 0,
            i <= chars.len(),
            r@ + replaced(s@.skip(i as int), pat@, rep@) == replaced(s@, pat@, rep@),
        decreases chars.len() - i,
    {
        let ghost r0 = r@;
        let ghost rest = s@.skip(i as int);
        if occurs_at(&chars, &p, i) {
            r.append(rep);
            assert(rest.skip(pat@.len() as int) =~= s@.skip(i + pat@.len()));
            assert(r@ + replaced(s@.skip(i + pat@.len()), pat@, rep@) =~= r0 + replaced(
                rest,
                pat@,
                rep@,
            ));
            i = i + p.len();
        } else {
            r.push(chars[i]);
            assert(rest[0] == s@[i as int]);
            assert(rest.skip(1) =~= s@.skip(i + 1));
            assert(r@ + replaced(s@.skip(i + 1), pat@, rep@) =~= r0 + replaced(rest, pat@, rep@));
            i = i + 1;
        }
    }
    assert(s@.skip(s@.len() as int) =~= Seq::<char>::empty());
    assert(r@ + Seq::<char>::empty() =~= r@);
    r
}

/// `pat` occurs somewhere in `s`.
pub open spec fn occurs_in(s: Seq<char>, pat: Seq<char>) -> bool {
    exists|i: int| 0 <= i <= s.len() && #[trigger] begins_with(s.skip(i), pat)
}

/// Where the replacement shares no character with what is replaced, nothing of
/// what is replaced is left.
pub proof fn replaced_is_gone(s: Seq<char>, pat: Seq<char>, rep: Seq<char>)
    requires
        pat.len() > 0,
        rep.len() > 0,
        forall|i: int, j: int|
            0 <= i < pat.len() && 0 <= j < rep.len() ==> #[trigger] pat[i] != #[trigger] rep[j],
    ensures
        !occurs_in(replaced(s, pat, rep), pat),
    decreases s.len(),
{
    let out = replaced(s, pat, rep);
    assert forall|i: int| 0 <= i <= out.len() implies !#[trigger] begins_with(
        out.skip(i),
        pat,
    ) by {
        occurrence_impossible(s, pat, rep, i);
    }
}

/// An occurrence at position `i` of the result would be one that was not
/// replaced, or would overlap a replacement.
proof fn occurrence_impossible(s: Seq<char>, pat: Seq<char>, rep: Seq<char>, i: int)
    requires
        pat.len() > 0,
        rep.len() > 0,
        forall|i: int, j: int|
            0 <= i < pat.len() && 0 <= j < rep.len() ==> #[trigger] pat[i] != #[trigger] rep[j],
        0 <= i <= replaced(s, pat, rep).len(),
    ensures
        !begins_with(replaced(s, pat, rep).skip(i), pat),
    decreases s.len(),
{
    let out = replaced(s, pat, rep);
    if s.len() == 0 {
        assert(out.skip(i).len() < pat.len());
    } else if begins_with(s, pat) {
        let tail = replaced(s.skip(pat.len() as int), pat, rep);
        if i < rep.len() {
            assert(out.skip(i)[0] == rep[i]);
            if begins_with(out.skip(i), pat) {
                assert(out.skip(i).take(pat.len() as int)[0] == pat[0]);
                assert(pat[0] != rep[i]);
            }
        } else {
            assert(out.skip(i) =~= tail.skip(i - rep.len()));
            occurrence_impossible(s.skip(pat.len() as int), pat, rep, i - rep.len());
        }
    } else {
        let tail = replaced(s.skip(1), pat, rep);
        if i > 0 {
            assert(out.skip(i) =~= tail.skip(i - 1));
            occurrence_impossible(s.skip(1), pat, rep, i - 1);
        } else if begins_with(out.skip(0), pat) {
            // The first `pat.len()` characters of the result hold no character
            // of a replacement, so they are copied from `s` one for one.
            assert(out.skip(0) =~= out);
            copied_prefix(s, pat, rep, pat.len() as int);
        }
    }
}

/// As long as the result begins with characters of `pat`, it agrees with `s`.
proof fn copied_prefix(s: Seq<char>, pat: Seq<char>, rep: Seq<char>, n: int)
    requires
        pat.len() > 0,
        rep.len() > 0,
        0 <= n <= replaced(s, pat, rep).len(),
        n > 0 ==> !begins_with(s, pat),
        forall|k: int, j: int|
            0 <= k < n && 0 <= j < rep.len() ==> #[trigger] replaced(s, pat, rep)[k]
                != #[trigger] rep[j],
    ensures
        n <= s.len(),
        s.take(n) == replaced(s, pat, rep).take(n),
    decreases s.len(),
{
    let out = replaced(s, pat, rep);
    if n > 0 {
        if s.len() > 0 {
            let rest = s.skip(1);
            let tail = replaced(rest, pat, rep);
            assert forall|k: int, j: int|
                0 <= k < n - 1 && 0 <= j < rep.len() implies #[trigger] tail[k] != #[trigger] rep[j] by {
                assert(out[k + 1] == tail[k]);
            }
            if n > 1 && begins_with(rest, pat) {
                assert(rest.len() > 0);
                assert(tail[0] == rep[0]);
                assert(out[1] == tail[0]);
            }
            copied_prefix(rest, pat, rep, n - 1);
            assert(s.take(n) =~= seq![s[0]] + rest.take(n - 1));
            assert(out.take(n) =~= seq![s[0]] + tail.take(n - 1));
        }
    } else {
        assert(s.take(0) =~= out.take(0));
    }
}

/// A character with the Unicode property `White_Space`.
pub open spec fn whitespace(c: char) -> bool {
    let n = c as u32;
    0x09 <= n <= 0x0d || n == 0x20 || n == 0x85 || n == 0xa0 || n == 0x1680 || 0x2000 <= n <= 0x200a
        || n == 0x2028 || n == 0x2029 || n == 0x202f || n == 0x205f || n == 0x3000
}

/// Whether `c` is white space.
pub fn is_whitespace(c: char) -> (r: bool)
    ensures
        r == whitespace(c),
{
    let n: u32 = c as u32;
    (0x09 <= n && n <= 0x0d) || n == 0x20 || n == 0x85 || n == 0xa0 || n == 0x1680 || (0x2000 <= n
        && n <= 0x200a) || n == 0x2028 || n == 0x2029 || n == 0x202f || n == 0x205f || n == 0x3000
}

/// `s` without the white space it begins with.
pub open spec fn trim_start(s: Seq<char>) -> Seq<char>
    decreases s.len(),
{
    if s.len() > 0 && whitespace(s[0]) {
        trim_start(s.skip(1))
    } else {
        s
    }
}

/// `s` without the white space it ends with.
pub open spec fn trim_end(s: Seq<char>) -> Seq<char>
    decreases s.len(),
{
    if s.len() > 0 && whitespace(s.last()) {
        trim_end(s.drop_last())
    } else {
        s
    }
}

/// `s` without the white space around it.
pub open spec fn trimmed(s: Seq<char>) -> Seq<char> {
    trim_end(trim_start(s))
}

/// The first position from `from` on that is not white space, or the length.
fn skip_space(chars: &Vec<char>, from: usize) -> (r: usize)
    requires
        from <= chars.len(),
    ensures
        from <= r <= chars.len(),
        chars@.skip(r as int) == trim_start(chars@.skip(from as int)),
        r < chars.len() ==> !whitespace(chars@[r as int]),
{
    let mut i: usize = from;
    while i < chars.len() && is_whitespace(chars[i])
        invariant
            from <= i <= chars.len(),
            trim_start(chars@.skip(from as int)) == trim_start(chars@.skip(i as int)),
        decreases chars.len() - i,
    {
        assert(chars@.skip(i as int)[0] == chars@[i as int]);
        assert(chars@.skip(i as int).skip(1) =~= chars@.skip(i + 1));
        i = i + 1;
    }
    if i < chars.len() {
        assert(chars@.skip(i as int)[0] == chars@[i as int]);
    }
    i
}

/// `s` without the white space around it.
pub fn trim(s: &str) -> (r: String)
    ensures
        r@ == trimmed(s@),
{
    let chars = chars_of(s);
    let start: usize = skip_space(&chars, 0);
    assert(s@.skip(0) =~= s@);
    let ghost rest = s@.skip(start as int);
    let mut end: usize = chars.len();
    assert(rest.take(end - start) =~= rest);
    while end > start && is_whitespace(chars[end - 1])
        invariant
            chars@ == s@,
            start <= end <= chars.len(),
            rest == s@.skip(start as int),
            trim_end(rest) == trim_end(rest.take(end - start)),
        decreases end,
    {
        assert(rest.take(end - start).last() == chars@[end - 1]);
        assert(rest.take(end - start).drop_last() =~= rest.take(end - 1 - start));
        end = end - 1;
    }
    if end > start {
        assert(rest.take(end - start).last() == chars@[end - 1]);
    }
    let r = slice_text(&chars, start, end);
    assert(s@.subrange(start as int, end as int) =~= rest.take(end - start));
    r
}

/// What precedes the first white space of `s`.
pub open spec fn until_space(s: Seq<char>) -> Seq<char>
    decreases s.len(),
{
    if s.len() == 0 || whitespace(s[0]) {
        Seq::empty()
    } else {
        seq![s[0]] + until_space(s.skip(1))
    }
}

/// The first of the words that white space separates; empty where there is none.
pub open spec fn first_word_of(s: Seq<char>) -> Seq<char> {
    until_space(trim_start(s))
}

/// The first word of `s`.
pub fn first_word(s: &str) -> (r: String)
    ensures
        r@ == first_word_of(s@),
{
    let chars = chars_of(s);
    let start: usize = skip_space(&chars, 0);
    assert(s@.skip(0) =~= s@);
    let ghost rest = s@.skip(start as int);
    let mut r = String::new();
    let mut i: usize = start;
    assert(r@ + until_space(rest) =~= until_space(rest));
    while i < chars.len() && !is_whitespace(chars[i])
        invariant
            chars@ == s@,
            start <= i <= chars.len(),
            r@ + until_space(s@.skip(i as int)) == until_space(rest),
        decreases chars.len() - i,
    {
        let ghost r0 = r@;
        let ghost here = s@.skip(i as int);
        assert(here[0] == chars@[i as int]);
        assert(here.skip(1) =~= s@.skip(i + 1));
        r.push(chars[i]);
        assert(r@ + until_space(s@.skip(i + 1)) =~= r0 + until_space(here));
        i = i + 1;
    }
    if i < chars.len() {
        assert(s@.skip(i as int)[0] == chars@[i as int]);
    }
    assert(r@ + Seq::<char>::empty() =~= r@);
    r
}

/// A double colon stands at position `i`.
pub open spec fn double_colon_at(s: Seq<char>, i: int) -> bool {
    0 <= i && i + 1 < s.len() && s[i] == ':' && s[i + 1] == ':'
}

/// What follows the last double colon before position `n`, up to the end.
pub open spec fn after_colons(s: Seq<char>, n: int) -> Seq<char>
    decreases n,
{
    if n <= 0 {
        s
    } else if double_colon_at(s, n - 1) {
        s.skip(n + 1)
    } else {
        after_colons(s, n - 1)
    }
}

/// The last of the segments that double colons separate.
pub open spec fn last_segment_of(s: Seq<char>) -> Seq<char> {
    after_colons(s, s.len() as int)
}

/// The last of the segments that double colons separate.
pub fn last_segment(s: &str) -> (r: String)
    ensures
        r@ == last_segment_of(s@),
{
    let chars = chars_of(s);
    let mut n: usize = chars.len();
    while n > 0
        invariant
            chars@ == s@,
            n <= chars.len(),
            after_colons(s@, s@.len() as int) == after_colons(s@, n as int),
        decreases n,
    {
        if n < chars.len() && chars[n - 1] == ':' && chars[n] == ':' {
            let r = slice_text(&chars, n + 1, chars.len());
            assert(double_colon_at(s@, n - 1));
            assert(s@.subrange(n + 1, s@.len() as int) =~= s@.skip(n + 1));
            return r;
        }
        n = n - 1;
    }
    s.to_owned()
}

/// The texts one after the other with `sep` between them.
pub open spec fn joined(parts: Seq<Seq<char>>, sep: Seq<char>) -> Seq<char>
    decreases parts.len(),
{
    if parts.len() == 0 {
        Seq::empty()
    } else if parts.len() == 1 {
        parts[0]
    } else {
        joined(parts.drop_last(), sep) + sep + parts.last()
    }
}

/// The texts one after the other with `sep` between them.
pub fn join(parts: &Vec<String>, sep: &str) -> (r: String)
    ensures
        r@ == joined(crate::order::text_views(parts@), sep@),
{
    let ghost pv = crate::order::text_views(parts@);
    let mut r = String::new();
    let mut i: usize = 0;
    while i < parts.len()
        invariant
            i <= parts.len(),
            pv == crate::order::text_views(parts@),
            r@ == joined(pv.take(i as int), sep@),
        decreases parts.len() - i,
    {
        let ghost r0 = r@;
        if i > 0 {
            r.append(sep);
        }
        r.append(&parts[i]);
        proof {
            let t = pv.take(i + 1);
            assert(t.drop_last() =~= pv.take(i as int));
            assert(t.last() == parts@[i as int]@);
            if i == 0 {
                assert(r@ =~= t[0]);
            }
        }
        i = i + 1;
    }
    assert(pv.take(pv.len() as int) =~= pv);
    r
}

/// The text of a byte string, each invalid part of it replaced by U+FFFD.
pub uninterp spec fn utf8_lossy(bytes: Seq<u8>) -> Seq<char>;

/// Calls `String::from_utf8_lossy`.
///
/// Claims that the text depends on the bytes alone, and that valid UTF-8 is
/// decoded. How invalid bytes are grouped into replacement characters is left
/// unsaid.
#[verifier::external_body]
pub(crate) fn lossy(bytes: &[u8]) -> (r: String)
    ensures
        r@ == utf8_lossy(bytes@),
        vstd::utf8::valid_utf8(bytes@) ==> r@ == vstd::utf8::decode_utf8(bytes@),
{
    String::from_utf8_lossy(bytes).into_owned()
}

/// The UTF-8 encoding of a text.
pub open spec fn utf8(s: Seq<char>) -> Seq<u8> {
    vstd::utf8::encode_utf8(s)
}

/// Texts with the same encoding are the same.
pub proof fn utf8_injective(a: Seq<char>, b: Seq<char>)
    requires
        utf8(a) == utf8(b),
    ensures
        a == b,
{
    vstd::utf8::encode_utf8_decode_utf8(a);
    vstd::utf8::encode_utf8_decode_utf8(b);
}

/// Between equal surroundings, equal wholes have equal middles.
pub proof fn middle_decides<T>(x: Seq<T>, a: Seq<T>, b: Seq<T>, y: Seq<T>)
    requires
        x + a + y == x + b + y,
    ensures
        a == b,
{
    let s = x + a + y;
    let t = x + b + y;
    assert(s.len() == x.len() + a.len() + y.len());
    assert(t.len() == x.len() + b.len() + y.len());
    assert(a =~= s.subrange(x.len() as int, (x.len() + a.len()) as int));
    assert(b =~= t.subrange(x.len() as int, (x.len() + b.len()) as int));
}

/// What follows the last separator is determined, and so is what precedes it.
pub proof fn last_part_decides(
    s: Seq<char>,
    x: Seq<char>,
    t: Seq<char>,
    y: Seq<char>,
    sep: Seq<char>,
    c: char,
)
    requires
        sep.len() > 0,
        sep.last() == c,
        !x.contains(c),
        !y.contains(c),
        s + sep + x == t + sep + y,
    ensures
        s == t,
        x == y,
{
    let w = s + sep + x;
    let v = t + sep + y;
    assert(w[w.len() - x.len() - 1] == c);
    assert(v[v.len() - y.len() - 1] == c);
    if x.len() < y.len() {
        let k = y.len() - x.len() - 1;
        assert(y[k] == v[v.len() - y.len() + k]);
        assert(y.contains(c));
    }
    if y.len() < x.len() {
        let k = x.len() - y.len() - 1;
        assert(x[k] == w[w.len() - x.len() + k]);
        assert(x.contains(c));
    }
    assert(x =~= w.skip(w.len() - x.len()));
    assert(y =~= v.skip(v.len() - y.len()));
    assert(s =~= w.take(w.len() - x.len() - sep.len()));
    assert(t =~= v.take(v.len() - y.len() - sep.len()));
}

proof fn scalar_bytes_without(v: u32, b: u8, i: int)
    requires
        b < 0x80,
        v != b,
        0 <= i < vstd::utf8::encode_scalar(v).len(),
    ensures
        vstd::utf8::encode_scalar(v)[i] != b,
{
    if v <= 0x7f {
        assert(v <= 0x7f ==> (v & 0x7f) as u8 == v) by (bit_vector);
    }
    let p = ((v >> 6) & 0x1f) as u8;
    let q = ((v >> 12) & 0x0f) as u8;
    let r = ((v >> 18) & 0x7) as u8;
    let d = (v & 0x3f) as u8;
    let e = ((v >> 6) & 0x3f) as u8;
    let f = ((v >> 12) & 0x3f) as u8;
    assert(0xc0u8 | p >= 0x80) by (bit_vector);
    assert(0xe0u8 | q >= 0x80) by (bit_vector);
    assert(0xf0u8 | r >= 0x80) by (bit_vector);
    assert(0x80u8 | d >= 0x80) by (bit_vector);
    assert(0x80u8 | e >= 0x80) by (bit_vector);
    assert(0x80u8 | f >= 0x80) by (bit_vector);
}

/// The encoding of a text without a given ASCII character is without its byte.
pub proof fn utf8_without(s: Seq<char>, c: char)
    requires
        c as u32 <= 0x7f,
        !s.contains(c),
    ensures
        !utf8(s).contains(c as u8),
    decreases s.len(),
{
    if s.len() > 0 {
        let head = vstd::utf8::encode_scalar(s[0] as u32);
        let rest = s.drop_first();
        assert forall|i: int| 0 <= i < rest.len() implies rest[i] != c by {
            assert(rest[i] == s[i + 1]);
            assert(s.contains(s[i + 1]));
        }
        utf8_without(rest, c);
        assert(s.contains(s[0]));
        if s[0] as u32 == c as u32 {
            vstd::utf8::char_u32_cast(s[0], c as u32);
            vstd::utf8::char_u32_cast(c, c as u32);
        }
        assert forall|i: int| 0 <= i < utf8(s).len() implies utf8(s)[i] != c as u8 by {
            if i < head.len() {
                scalar_bytes_without(s[0] as u32, c as u8, i);
            } else {
                assert(utf8(s)[i] == utf8(rest)[i - head.len()]);
                assert(utf8(rest).contains(utf8(rest)[i - head.len()]));
            }
        }
    }
}

/// The encoding of a text is that of its parts, one after the other.
pub proof fn utf8_concat(a: Seq<char>, b: Seq<char>)
    ensures
        utf8(a + b) == utf8(a) + utf8(b),
    decreases a.len(),
{
    if a.len() == 0 {
        assert(a + b =~= b);
        assert(utf8(a) + utf8(b) =~= utf8(b));
    } else {
        assert((a + b).drop_first() =~= a.drop_first() + b);
        utf8_concat(a.drop_first(), b);
        assert(utf8(a + b) =~= utf8(a) + utf8(b));
    }
}

/// Whether `pat` occurs somewhere in `s`.
pub fn contains_text(s: &str, pat: &str) -> (r: bool)
    ensures
        r == occurs_in(s@, pat@),
{
    let chars = chars_of(s);
    let p = chars_of(pat);
    let mut i: usize = 0;
    loop
        invariant
            i <= chars.len(),
            chars@ == s@,
            p@ == pat@,
            forall|k: int| 0 <= k < i ==> !#[trigger] begins_with(s@.skip(k), pat@),
        decreases chars.len() - i,
    {
        if occurs_at(&chars, &p, i) {
            return true;
        }
        if i == chars.len() {
            return false;
        }
        i = i + 1;
    }
}

/// The lines of a text. A line break ends a line and starts none; the carriage
/// return of a two-character line break belongs to the break.
pub open spec fn lines_of(s: Seq<char>) -> Seq<Seq<char>>
    decreases s.len(),
    via lines_of_decreases
{
    if s.len() == 0 {
        Seq::empty()
    } else if find(s, '\n') >= s.len() {
        seq![s]
    } else {
        seq![first_line_of(s)] + lines_of(s.skip(find(s, '\n') + 1))
    }
}

#[via_fn]
proof fn lines_of_decreases(s: Seq<char>) {
    find_from_facts(s, '\n', 0);
}

/// The lines of a text.
pub fn lines(s: &str) -> (r: Vec<String>)
    ensures
        crate::order::text_views(r@) == lines_of(s@),
{
    let mut rest = s.to_owned();
    let mut r: Vec<String> = Vec::new();
    assert(crate::order::text_views(r@) + lines_of(s@) =~= lines_of(s@));
    while !rest.as_str().is_empty()
        invariant
            crate::order::text_views(r@) + lines_of(rest@) == lines_of(s@),
        decreases rest@.len(),
    {
        let chars = chars_of(&rest);
        let k: usize = find_char(&chars, '\n', 0);
        let ghost before = crate::order::text_views(r@);
        let ghost r0 = rest@;
        proof {
            find_from_facts(r0, '\n', 0);
        }
        let line = first_line(&rest);
        let ghost lv = line@;
        r.push(line);
        assert(crate::order::text_views(r@) =~= before.push(lv));
        if k < chars.len() {
            rest = slice_text(&chars, k + 1, chars.len());
            proof {
                assert(rest@ =~= r0.skip(k + 1));
                assert(before.push(lv) + lines_of(rest@) =~= before + (seq![lv] + lines_of(rest@)));
            }
        } else {
            rest = String::new();
            proof {
                assert(lv =~= r0);
                assert(lines_of(rest@) =~= Seq::<Seq<char>>::empty());
                assert(before.push(lv) + lines_of(rest@) =~= before + seq![r0]);
            }
        }
    }
    assert(crate::order::text_views(r@) + lines_of(rest@) =~= crate::order::text_views(r@));
    r
}

/// A text filled up with blanks to a width.
pub open spec fn padded(s: Seq<char>, width: nat) -> Seq<char> {
    s + Seq::new(
        if s.len() < width {
            (width - s.len()) as nat
        } else {
            0
        },
        |i: int| ' ',
    )
}

/// A text filled up with blanks to a width.
pub fn pad(s: &str, width: usize) -> (r: String)
    ensures
        r@ == padded(s@, width as nat),
{
    let mut r = s.to_owned();
    let mut n: usize = chars_of(s).len();
    let ghost n0 = n;
    assert(r@ =~= s@ + Seq::new(0, |i: int| ' '));
    while n < width
        invariant
            n0 == s@.len(),
            n0 <= n,
            n <= width || n == n0,
            r@ == s@ + Seq::new((n - n0) as nat, |i: int| ' '),
        decreases width - n,
    {
        r.push(' ');
        n = n + 1;
        assert(r@ =~= s@ + Seq::new((n - n0) as nat, |i: int| ' '));
    }
    assert(r@ =~= padded(s@, width as nat));
    r
}

} // verus!
