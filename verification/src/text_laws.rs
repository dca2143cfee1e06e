//! What the operations on text are for: how they relate to one another, and what
//! they keep of their input.

use crate::text;
use vstd::prelude::*;

verus! {

/// A text begins with another exactly if it is that one and something more.
pub proof fn beginnings_are_prefixes(s: Seq<char>, p: Seq<char>)
    ensures
        text::begins_with(s, p) <==> exists|rest: Seq<char>| s == p + rest,
{
    if text::begins_with(s, p) {
        assert(s =~= p + s.skip(p.len() as int));
    }
    if exists|rest: Seq<char>| s == p + rest {
        let rest = choose|rest: Seq<char>| s == p + rest;
        assert((p + rest).take(p.len() as int) =~= p);
    }
}

/// A text occurs in another exactly if it is part of it.
pub proof fn occurrences_are_parts(s: Seq<char>, p: Seq<char>)
    ensures
        text::occurs_in(s, p) <==> exists|a: Seq<char>, b: Seq<char>| s == a + p + b,
{
    if text::occurs_in(s, p) {
        let i = choose|i: int| 0 <= i <= s.len() && #[trigger] text::begins_with(s.skip(i), p);
        let a = s.take(i);
        let b = s.skip(i).skip(p.len() as int);
        assert(s.skip(i) =~= p + b);
        assert(s =~= a + p + b);
    }
    if exists|a: Seq<char>, b: Seq<char>| s == a + p + b {
        let (a, b) = choose|a: Seq<char>, b: Seq<char>| s == a + p + b;
        assert(s.skip(a.len() as int).take(p.len() as int) =~= p);
        assert(text::begins_with(s.skip(a.len() as int), p));
    }
}

/// A non-negative number is written in digits alone, without a leading zero, and
/// can be read back.
pub proof fn numerals_are_digits(n: nat)
    ensures
        text::dec_text(n).len() > 0,
        forall|i: int| 0 <= i < text::dec_text(n).len() ==> '0' <= #[trigger] text::dec_text(n)[i]
            <= '9',
        text::dec_text(n).len() > 1 ==> text::dec_text(n)[0] != '0',
        text::dec_value(text::dec_text(n)) == n,
    decreases n,
{
    text::dec_round_trip(n);
    if n >= 10 {
        numerals_are_digits(n / 10);
        let t = text::dec_text(n / 10);
        assert(text::dec_text(n)[0] == t[0]);
        if n / 10 < 10 {
            assert(t =~= seq![text::digit((n / 10) as int)]);
        } else {
            numerals_are_digits(n / 10 / 10);
            assert(t.len() > 1);
        }
        assert forall|i: int| 0 <= i < text::dec_text(n).len() implies '0'
            <= #[trigger] text::dec_text(n)[i] <= '9' by {
            if i < t.len() {
                assert(text::dec_text(n)[i] == t[i]);
            }
        }
    }
}

/// A negative number is written as its opposite behind a minus sign, any other
/// one without.
pub proof fn signs_are_written(n: int)
    ensures
        n >= 0 ==> text::dec_value(text::int_text(n)) == n && text::int_text(n)[0] != '-',
        n < 0 ==> text::int_text(n).len() > 1 && text::int_text(n)[0] == '-' && text::dec_value(
            text::int_text(n).drop_first(),
        ) == -n,
{
    reveal_strlit("-");
    if n >= 0 {
        numerals_are_digits(n as nat);
    } else {
        numerals_are_digits((-n) as nat);
        assert(text::int_text(n).drop_first() =~= text::dec_text((-n) as nat));
    }
}

/// Of a text at most the asked for number of characters is taken, from the front.
pub proof fn prefixes_are_short(s: Seq<char>, n: nat)
    ensures
        text::prefix_of(s, n as int).len() == (if s.len() < n {
            s.len()
        } else {
            n
        }),
        text::prefix_of(s, n as int).is_prefix_of(s),
{
    assert(s.take(s.len() as int) =~= s);
}

/// A text is cut only where it is too long, to exactly the allowed length, and the
/// cut is marked.
pub proof fn clips_are_marked(s: Seq<char>, n: nat, mark: Seq<char>)
    ensures
        s.len() <= n ==> text::clipped(s, n as int, mark) == s,
        s.len() > n ==> exists|kept: Seq<char>, lost: Seq<char>|
            kept.len() == n && s == kept + lost && text::clipped(s, n as int, mark) == kept + mark,
{
    if s.len() > n {
        let kept = s.take(n as int);
        assert(s =~= kept + s.skip(n as int));
    }
}

/// The first line is what precedes the first line break, which may be a line feed
/// with or without a carriage return before it.
pub proof fn first_line_ends_at_the_break(line: Seq<char>, rest: Seq<char>)
    requires
        !line.contains('\n'),
    ensures
        text::first_line_of(line) == line,
        line.len() == 0 || line.last() != '\r' ==> text::first_line_of(line + seq!['\n'] + rest)
            == line,
        text::first_line_of(line + seq!['\r', '\n'] + rest) == line,
{
    assert forall|j: int| 0 <= j < line.len() implies #[trigger] line[j] != '\n' by {
        assert(line.contains(line[j]));
    }
    text::find_from_unique(line, '\n', 0, line.len() as int);
    assert(line.take(line.len() as int) =~= line);
    let a = line + seq!['\n'] + rest;
    assert forall|j: int| 0 <= j < line.len() implies #[trigger] a[j] != '\n' by {
        assert(a[j] == line[j]);
    }
    assert(a[line.len() as int] == '\n');
    text::find_from_unique(a, '\n', 0, line.len() as int);
    assert(a.take(line.len() as int) =~= line);
    let b = line + seq!['\r', '\n'] + rest;
    assert forall|j: int| 0 <= j < line.len() + 1 implies #[trigger] b[j] != '\n' by {
        if j < line.len() {
            assert(b[j] == line[j]);
        } else {
            assert(b[j] == '\r');
        }
    }
    assert(b[line.len() as int + 1] == '\n');
    text::find_from_unique(b, '\n', 0, line.len() as int + 1);
    assert(b.take(line.len() as int) =~= line);
}

/// Lines are taken one by one: a line break ends a line and starts none, and no
/// line is lost.
pub proof fn lines_follow_one_another(line: Seq<char>, rest: Seq<char>)
    requires
        !line.contains('\n'),
    ensures
        line.len() > 0 ==> text::lines_of(line) == seq![line],
        line.len() == 0 ==> text::lines_of(line) == Seq::<Seq<char>>::empty(),
        line.len() == 0 || line.last() != '\r' ==> text::lines_of(line + seq!['\n'] + rest)
            == seq![line] + text::lines_of(rest),
        text::lines_of(line + seq!['\r', '\n'] + rest) == seq![line] + text::lines_of(rest),
{
    first_line_ends_at_the_break(line, rest);
    assert forall|j: int| 0 <= j < line.len() implies #[trigger] line[j] != '\n' by {
        assert(line.contains(line[j]));
    }
    text::find_from_unique(line, '\n', 0, line.len() as int);
    let a = line + seq!['\n'] + rest;
    assert forall|j: int| 0 <= j < line.len() implies #[trigger] a[j] != '\n' by {
        assert(a[j] == line[j]);
    }
    assert(a[line.len() as int] == '\n');
    text::find_from_unique(a, '\n', 0, line.len() as int);
    assert(a.skip(line.len() as int + 1) =~= rest);
    let b = line + seq!['\r', '\n'] + rest;
    assert forall|j: int| 0 <= j < line.len() + 1 implies #[trigger] b[j] != '\n' by {
        if j < line.len() {
            assert(b[j] == line[j]);
        } else {
            assert(b[j] == '\r');
        }
    }
    assert(b[line.len() as int + 1] == '\n');
    text::find_from_unique(b, '\n', 0, line.len() as int + 1);
    assert(b.skip(line.len() as int + 2) =~= rest);
}

/// Joined texts stand one after the other, the separator between any two of them
/// and nowhere else.
pub proof fn joins_compose(a: Seq<Seq<char>>, b: Seq<Seq<char>>, x: Seq<char>, sep: Seq<char>)
    ensures
        text::joined(Seq::empty(), sep) == Seq::<char>::empty(),
        text::joined(seq![x], sep) == x,
        a.len() > 0 && b.len() > 0 ==> text::joined(a + b, sep) == text::joined(a, sep) + sep
            + text::joined(b, sep),
    decreases b.len(),
{
    if a.len() > 0 && b.len() > 0 {
        let ab = a + b;
        assert(ab.last() == b.last());
        if b.len() == 1 {
            assert(ab.drop_last() =~= a);
        } else {
            joins_compose(a, b.drop_last(), x, sep);
            assert(ab.drop_last() =~= a + b.drop_last());
            let p = text::joined(a, sep) + sep;
            let q = text::joined(b.drop_last(), sep);
            assert(p + q + sep + b.last() =~= p + (q + sep + b.last()));
        }
    }
}

/// Pieces can be joined back into the text they were split from, and none of them
/// holds the separator.
pub proof fn pieces_join_back(s: Seq<char>, c: char)
    ensures
        text::joined(text::split_on(s, c), seq![c]) == s,
        forall|i: int| 0 <= i < text::split_on(s, c).len() ==> !(#[trigger] text::split_on(
            s,
            c,
        )[i]).contains(c),
        text::split_on(s, c).len() > 0,
    decreases s.len(),
{
    text::find_from_facts(s, c, 0);
    let k = text::find(s, c);
    let pieces = text::split_on(s, c);
    if k < s.len() {
        let head = s.take(k);
        let rest = s.skip(k + 1);
        pieces_join_back(rest, c);
        joins_compose(seq![head], text::split_on(rest, c), head, seq![c]);
        assert(s =~= head + seq![c] + rest);
        assert(!head.contains(c)) by {
            if head.contains(c) {
                let j = choose|j: int| 0 <= j < head.len() && head[j] == c;
                assert(s[j] == c);
            }
        }
        assert forall|i: int| 0 <= i < pieces.len() implies !(#[trigger] pieces[i]).contains(c) by {
            if i > 0 {
                assert(pieces[i] == text::split_on(rest, c)[i - 1]);
            }
        }
    } else {
        joins_compose(Seq::empty(), Seq::empty(), s, seq![c]);
        assert(!s.contains(c)) by {
            if s.contains(c) {
                let j = choose|j: int| 0 <= j < s.len() && s[j] == c;
                assert(s[j] == c);
            }
        }
    }
}

/// Texts without the separator come back when what they were joined to is split.
pub proof fn joins_split_back(parts: Seq<Seq<char>>, c: char)
    requires
        parts.len() > 0,
        forall|i: int| 0 <= i < parts.len() ==> !(#[trigger] parts[i]).contains(c),
    ensures
        text::split_on(text::joined(parts, seq![c]), c) == parts,
    decreases parts.len(),
{
    let s = text::joined(parts, seq![c]);
    let head = parts[0];
    if parts.len() == 1 {
        assert(!s.contains(c));
        assert forall|j: int| 0 <= j < s.len() implies #[trigger] s[j] != c by {
            assert(s.contains(s[j]));
        }
        text::find_from_unique(s, c, 0, s.len() as int);
        assert(seq![s] =~= parts);
    } else {
        let more = parts.drop_first();
        joins_compose(seq![head], more, head, seq![c]);
        assert(seq![head] + more =~= parts);
        let rest = text::joined(more, seq![c]);
        assert(s == head + seq![c] + rest);
        assert forall|j: int| 0 <= j < head.len() implies #[trigger] s[j] != c by {
            assert(s[j] == head[j]);
            assert(head.contains(head[j]));
        }
        assert(s[head.len() as int] == c);
        text::find_from_unique(s, c, 0, head.len() as int);
        assert(s.take(head.len() as int) =~= head);
        assert(s.skip(head.len() as int + 1) =~= rest);
        assert forall|i: int| 0 <= i < more.len() implies !(#[trigger] more[i]).contains(c) by {
            assert(more[i] == parts[i + 1]);
        }
        joins_split_back(more, c);
        assert(seq![head] + more =~= parts);
    }
}

/// All of the text is white space.
pub open spec fn blank(s: Seq<char>) -> bool {
    forall|i: int| 0 <= i < s.len() ==> text::whitespace(#[trigger] s[i])
}

proof fn trim_start_splits(s: Seq<char>) -> (a: Seq<char>)
    ensures
        s == a + text::trim_start(s),
        blank(a),
        text::trim_start(s).len() > 0 ==> !text::whitespace(text::trim_start(s)[0]),
    decreases s.len(),
{
    if s.len() > 0 && text::whitespace(s[0]) {
        let b = trim_start_splits(s.skip(1));
        let a = seq![s[0]] + b;
        assert(s =~= seq![s[0]] + s.skip(1));
        assert(seq![s[0]] + (b + text::trim_start(s)) =~= a + text::trim_start(s));
        assert forall|i: int| 0 <= i < a.len() implies text::whitespace(#[trigger] a[i]) by {
            if i > 0 {
                assert(a[i] == b[i - 1]);
            }
        }
        a
    } else {
        assert(s =~= Seq::<char>::empty() + s);
        Seq::empty()
    }
}

proof fn trim_end_splits(s: Seq<char>) -> (b: Seq<char>)
    ensures
        s == text::trim_end(s) + b,
        blank(b),
        text::trim_end(s).len() > 0 ==> !text::whitespace(text::trim_end(s).last()),
    decreases s.len(),
{
    if s.len() > 0 && text::whitespace(s.last()) {
        let a = trim_end_splits(s.drop_last());
        let b = a.push(s.last());
        assert(s =~= s.drop_last().push(s.last()));
        assert((text::trim_end(s) + a).push(s.last()) =~= text::trim_end(s) + b);
        b
    } else {
        assert(s =~= s + Seq::<char>::empty());
        Seq::empty()
    }
}

/// Trimming takes white space from both ends, all of it and nothing else.
pub proof fn trimming_takes_white_space(s: Seq<char>)
    ensures
        exists|a: Seq<char>, b: Seq<char>| #[trigger]
            (a + text::trimmed(s) + b) == s && blank(a) && blank(b),
        text::trimmed(s).len() > 0 ==> !text::whitespace(text::trimmed(s)[0]) && !text::whitespace(
            text::trimmed(s).last(),
        ),
{
    let a = trim_start_splits(s);
    let t = text::trim_start(s);
    let b = trim_end_splits(t);
    assert(a + text::trimmed(s) + b =~= s);
    if text::trimmed(s).len() > 0 {
        assert(text::trimmed(s)[0] == t[0]);
    }
}

/// White space among the ASCII characters: blank, tab, the line breaks, vertical
/// tab and form feed.
pub proof fn ascii_white_space(c: char)
    requires
        c as u32 <= 0x7f,
    ensures
        text::whitespace(c) <==> c == ' ' || c == '\t' || c == '\n' || c == '\r' || c as u32 == 0x0b
            || c as u32 == 0x0c,
        text::control(c) <==> (c as u32) < 0x20 || c as u32 == 0x7f,
{
}

/// Beyond ASCII, the next line, the spaces of every width, and the separators of lines
/// and paragraphs are white space; zero-width characters are not.
pub proof fn other_white_space(c: char)
    requires
        c as u32 > 0x7f,
    ensures
        text::whitespace(c) <==> {
            ||| c as u32 == 0x85
            ||| c as u32 == 0xa0
            ||| c as u32 == 0x1680
            ||| 0x2000 <= c as u32 <= 0x200a
            ||| c as u32 == 0x2028
            ||| c as u32 == 0x2029
            ||| c as u32 == 0x202f
            ||| c as u32 == 0x205f
            ||| c as u32 == 0x3000
        },
        text::control(c) <==> c as u32 <= 0x9f,
{
}

proof fn until_space_splits(s: Seq<char>) -> (rest: Seq<char>)
    ensures
        s == text::until_space(s) + rest,
        forall|i: int| 0 <= i < text::until_space(s).len() ==> !text::whitespace(
            #[trigger] text::until_space(s)[i],
        ),
        rest.len() > 0 ==> text::whitespace(rest[0]),
    decreases s.len(),
{
    let w = text::until_space(s);
    if s.len() == 0 || text::whitespace(s[0]) {
        assert(s =~= w + s);
        s
    } else {
        let rest = until_space_splits(s.skip(1));
        let v = text::until_space(s.skip(1));
        assert(s =~= seq![s[0]] + s.skip(1));
        assert(seq![s[0]] + (v + rest) =~= w + rest);
        assert forall|i: int| 0 <= i < w.len() implies !text::whitespace(#[trigger] w[i]) by {
            if i > 0 {
                assert(w[i] == v[i - 1]);
            }
        }
        rest
    }
}

/// The first word follows white space alone, holds none, and goes up to the next;
/// there is one unless the text is blank.
pub proof fn first_word_is_whole(s: Seq<char>)
    ensures
        exists|a: Seq<char>, rest: Seq<char>| #[trigger]
            (a + text::first_word_of(s) + rest) == s && blank(a) && (rest.len() > 0
                ==> text::whitespace(rest[0])),
        forall|i: int| 0 <= i < text::first_word_of(s).len() ==> !text::whitespace(
            #[trigger] text::first_word_of(s)[i],
        ),
        text::first_word_of(s).len() == 0 <==> blank(s),
{
    let a = trim_start_splits(s);
    let t = text::trim_start(s);
    let rest = until_space_splits(t);
    let w = text::first_word_of(s);
    assert(a + w + rest =~= s);
    if blank(s) {
        if t.len() > 0 {
            assert(s[a.len() as int] == t[0]);
        }
    }
    if w.len() == 0 {
        assert(t =~= rest);
        assert(s =~= a);
    }
}

/// No double colon stands in the text.
pub open spec fn without_colons(s: Seq<char>) -> bool {
    forall|i: int| !#[trigger] text::double_colon_at(s, i)
}

proof fn after_colons_facts(s: Seq<char>, n: int)
    requires
        0 <= n <= s.len(),
        forall|i: int| n <= i ==> !#[trigger] text::double_colon_at(s, i),
    ensures
        without_colons(s) && text::after_colons(s, n) == s || exists|i: int|
            #![trigger text::double_colon_at(s, i)]
            text::double_colon_at(s, i) && text::after_colons(s, n) == s.skip(i + 2) && (forall|
                j: int,
            | i < j ==> !text::double_colon_at(s, j)),
    decreases n,
{
    if n > 0 {
        if !text::double_colon_at(s, n - 1) {
            after_colons_facts(s, n - 1);
        }
    } else {
        assert(without_colons(s));
    }
}

/// The last segment is what follows the last double colon, or the whole text where
/// there is none.
pub proof fn last_segment_is_last(s: Seq<char>)
    ensures
        without_colons(s) ==> text::last_segment_of(s) == s,
        !without_colons(s) ==> exists|i: int|
            #![trigger text::double_colon_at(s, i)]
            text::double_colon_at(s, i) && text::last_segment_of(s) == s.skip(i + 2) && (forall|
                j: int,
            | i < j ==> !text::double_colon_at(s, j)),
{
    after_colons_facts(s, s.len() as int);
    if without_colons(s) {
        if exists|i: int| text::double_colon_at(s, i) {
            let i = choose|i: int| text::double_colon_at(s, i);
            assert(!text::double_colon_at(s, i));
        }
    }
}

/// Where a text does not occur, replacing it changes nothing; where it occurs
/// first, it is replaced, and the rest is treated alike.
pub proof fn replacing_replaces(a: Seq<char>, pat: Seq<char>, b: Seq<char>, rep: Seq<char>)
    requires
        pat.len() > 0,
    ensures
        !text::occurs_in(a, pat) ==> text::replaced(a, pat, rep) == a,
        !text::occurs_in(a + pat.drop_last(), pat) ==> text::replaced(a + pat + b, pat, rep) == a
            + rep + text::replaced(b, pat, rep),
    decreases a.len(),
{
    let s = a + pat + b;
    if a.len() == 0 {
        assert(s.take(pat.len() as int) =~= pat);
        assert(s.skip(pat.len() as int) =~= b);
        assert(a + rep + text::replaced(b, pat, rep) =~= rep + text::replaced(b, pat, rep));
        assert(text::replaced(a, pat, rep) =~= a);
    } else {
        let a1 = a.skip(1);
        replacing_replaces(a1, pat, b, rep);
        if !text::occurs_in(a, pat) {
            assert(a.skip(0) =~= a);
            assert(!text::begins_with(a.skip(0), pat));
            assert forall|i: int| 0 <= i <= a1.len() implies !#[trigger] text::begins_with(
                a1.skip(i),
                pat,
            ) by {
                assert(a1.skip(i) =~= a.skip(i + 1));
                assert(!text::begins_with(a.skip(i + 1), pat));
            }
            assert(seq![a[0]] + a1 =~= a);
        }
        let p = a + pat.drop_last();
        if !text::occurs_in(p, pat) {
            let p1 = a1 + pat.drop_last();
            assert(p.skip(0) =~= p);
            assert(!text::begins_with(p.skip(0), pat));
            assert forall|i: int| 0 <= i <= p1.len() implies !#[trigger] text::begins_with(
                p1.skip(i),
                pat,
            ) by {
                assert(p1.skip(i) =~= p.skip(i + 1));
                assert(!text::begins_with(p.skip(i + 1), pat));
            }
            assert(!text::begins_with(s, pat)) by {
                if text::begins_with(s, pat) {
                    assert(p.len() >= pat.len());
                    assert(p.take(pat.len() as int) =~= s.take(pat.len() as int));
                }
            }
            assert(s.skip(1) =~= a1 + pat + b);
            assert(s[0] == a[0]);
            let t = text::replaced(b, pat, rep);
            assert(seq![a[0]] + (a1 + rep + t) =~= a + rep + t);
        }
    }
}

/// Padding adds blanks behind a text up to the width, and none beyond.
pub proof fn padding_adds_blanks(s: Seq<char>, width: nat)
    ensures
        text::padded(s, width).len() == (if s.len() < width {
            width
        } else {
            s.len()
        }),
        s.is_prefix_of(text::padded(s, width)),
        forall|i: int| s.len() <= i < text::padded(s, width).len() ==> #[trigger] text::padded(
            s,
            width,
        )[i] == ' ',
{
    assert(text::padded(s, width).subrange(0, s.len() as int) =~= s);
}

/// The number that an uppercase hexadecimal numeral stands for.
pub open spec fn upper_hex_value(s: Seq<char>) -> int
    decreases s.len(),
{
    if s.len() == 0 {
        0
    } else {
        16 * upper_hex_value(s.drop_last()) + (if s.last() <= '9' {
            s.last() as int - '0' as int
        } else {
            s.last() as int - 'A' as int + 10
        })
    }
}

/// An uppercase hexadecimal numeral can be read back, and has at least as many
/// digits as asked for.
pub proof fn upper_hex_reads_back(n: nat, width: nat)
    ensures
        upper_hex_value(text::upper_hex_text(n, width)) == n,
        text::upper_hex_text(n, width).len() >= width,
        forall|i: int|
            0 <= i < text::upper_hex_text(n, width).len() ==> {
                let c = #[trigger] text::upper_hex_text(n, width)[i];
                '0' <= c <= '9' || 'A' <= c <= 'F'
            },
    decreases n, width,
{
    let s = text::upper_hex_text(n, width);
    if n < 16 && width <= 1 {
        assert(s.drop_last() =~= Seq::<char>::empty());
        assert(upper_hex_value(Seq::<char>::empty()) == 0);
    } else {
        let w = if width == 0 {
            0nat
        } else {
            (width - 1) as nat
        };
        upper_hex_reads_back(n / 16, w);
        let t = text::upper_hex_text(n / 16, w);
        assert(s.drop_last() =~= t);
        assert forall|i: int| 0 <= i < s.len() implies ({
            let c = #[trigger] s[i];
            '0' <= c <= '9' || 'A' <= c <= 'F'
        }) by {
            if i < t.len() {
                assert(s[i] == t[i]);
            }
        }
    }
}

} // verus!
