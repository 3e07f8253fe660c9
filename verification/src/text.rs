//! Text of messages and tokens: decimal numbers, blanks, lists.
use vstd::prelude::*;
use vstd::string::*;

verus! {

/// The character of one decimal digit.
pub open spec fn digit(d: nat) -> char {
    (48 + d) as char
}

/// Decimal notation without leading zeros.
pub open spec fn decimal(n: nat) -> Seq<char>
    decreases n,
{
    if n < 10 {
        seq![digit(n)]
    } else {
        decimal(n / 10).push(digit(n % 10))
    }
}

fn digit_text(d: u64) -> (r: &'static str)
    requires
        d < 10,
    ensures
        r@ == seq![digit(d as nat)],
{
    proof {
        reveal_strlit("0");
        reveal_strlit("1");
        reveal_strlit("2");
        reveal_strlit("3");
        reveal_strlit("4");
        reveal_strlit("5");
        reveal_strlit("6");
        reveal_strlit("7");
        reveal_strlit("8");
        reveal_strlit("9");
    }
    if d == 0 {
        "0"
    } else if d == 1 {
        "1"
    } else if d == 2 {
        "2"
    } else if d == 3 {
        "3"
    } else if d == 4 {
        "4"
    } else if d == 5 {
        "5"
    } else if d == 6 {
        "6"
    } else if d == 7 {
        "7"
    } else if d == 8 {
        "8"
    } else {
        "9"
    }
}

/// Appends the decimal notation of `n`.
pub fn append_decimal(out: &mut String, n: u64)
    ensures
        final(out)@ == old(out)@ + decimal(n as nat),
    decreases n,
{
    if n >= 10 {
        append_decimal(out, n / 10);
    }
    out.append(digit_text(n % 10));
}

/// Appends the decimal notation of `n`.
pub fn append_count(out: &mut String, n: usize)
    ensures
        final(out)@ == old(out)@ + decimal(n as nat),
{
    append_decimal(out, n as u64);
}

/// The numbers in curly brackets, each two parted by a comma and a blank.
pub open spec fn braced_items(items: Seq<u32>) -> Seq<char>
    decreases items.len(),
{
    if items.len() == 0 {
        Seq::empty()
    } else if items.len() == 1 {
        decimal(items[0] as nat)
    } else {
        braced_items(items.drop_last()) + ", "@ + decimal(items.last() as nat)
    }
}

pub open spec fn braced(items: Seq<u32>) -> Seq<char> {
    "{"@ + braced_items(items) + "}"@
}

/// Appends the numbers in curly brackets.
pub fn append_braced(out: &mut String, items: &[u32])
    ensures
        final(out)@ == old(out)@ + braced(items@),
{
    out.append("{");
    let ghost opened = out@;
    let mut i: usize = 0;
    while i < items.len()
        invariant
            i <= items@.len(),
            opened == old(out)@ + "{"@,
            out@ == opened + braced_items(items@.take(i as int)),
        decreases items@.len() - i,
    {
        if i > 0 {
            out.append(", ");
        }
        append_decimal(out, items[i] as u64);
        proof {
            let grown = items@.take(i + 1);
            assert(grown.drop_last() =~= items@.take(i as int));
            assert(grown.last() == items@[i as int]);
            assert(out@ =~= opened + braced_items(grown));
        }
        i = i + 1;
    }
    assert(items@.take(i as int) =~= items@);
    out.append("}");
    assert(out@ =~= old(out)@ + braced(items@));
}

/// The characters that count as blanks: those with the White_Space property.
pub open spec fn is_blank(c: char) -> bool {
    let code = c as u32;
    ||| 0x9 <= code <= 0xd
    ||| code == 0x20
    ||| code == 0x85
    ||| code == 0xa0
    ||| code == 0x1680
    ||| 0x2000 <= code <= 0x200a
    ||| code == 0x2028
    ||| code == 0x2029
    ||| code == 0x202f
    ||| code == 0x205f
    ||| code == 0x3000
}

pub fn blank(c: char) -> (r: bool)
    ensures
        r == is_blank(c),
{
    let code: u32 = c as u32;
    (0x9 <= code && code <= 0xd) || code == 0x20 || code == 0x85 || code == 0xa0 || code == 0x1680
        || (0x2000 <= code && code <= 0x200a) || code == 0x2028 || code == 0x2029 || code == 0x202f
        || code == 0x205f || code == 0x3000
}

pub open spec fn all_blank(s: Seq<char>) -> bool {
    forall|i: int| 0 <= i < s.len() ==> is_blank(#[trigger] s[i])
}

/// `s` without the blanks at its start.
pub open spec fn trim_start(s: Seq<char>) -> Seq<char>
    decreases s.len(),
{
    if s.len() > 0 && is_blank(s[0]) {
        trim_start(s.skip(1))
    } else {
        s
    }
}

/// `s` without the blanks at its end.
pub open spec fn trim_end(s: Seq<char>) -> Seq<char>
    decreases s.len(),
{
    if s.len() > 0 && is_blank(s.last()) {
        trim_end(s.drop_last())
    } else {
        s
    }
}

/// `s` without the blanks at both ends.
pub open spec fn trimmed(s: Seq<char>) -> Seq<char> {
    trim_end(trim_start(s))
}

/// The text without the blanks at both ends.
pub fn trim<'a>(s: &'a str) -> (r: &'a str)
    ensures
        r@ == trimmed(s@),
{
    let n: usize = s.unicode_len();
    let mut a: usize = 0;
    assert(s@.skip(0) =~= s@);
    while a < n && blank(s.get_char(a))
        invariant
            a <= n == s@.len(),
            trim_start(s@) == trim_start(s@.skip(a as int)),
        decreases n - a,
    {
        assert(s@.skip(a as int).skip(1) =~= s@.skip(a + 1));
        a = a + 1;
    }
    let mut b: usize = n;
    assert(s@.subrange(a as int, n as int) =~= s@.skip(a as int));
    while a < b && blank(s.get_char(b - 1))
        invariant
            a <= b <= n == s@.len(),
            trimmed(s@) == trim_end(s@.subrange(a as int, b as int)),
        decreases b,
    {
        assert(s@.subrange(a as int, b as int).drop_last() =~= s@.subrange(a as int, b - 1));
        b = b - 1;
    }
    s.substring_char(a, b)
}

/// There is nothing but blanks.
pub fn nothing_but_blanks(s: &str) -> (r: bool)
    ensures
        r == all_blank(s@),
{
    let n: usize = s.unicode_len();
    let mut i: usize = 0;
    while i < n
        invariant
            i <= n == s@.len(),
            forall|k: int| 0 <= k < i ==> is_blank(#[trigger] s@[k]),
        decreases n - i,
    {
        if !blank(s.get_char(i)) {
            return false;
        }
        i = i + 1;
    }
    true
}

/// The parts of `s` between the separators; one more than there are separators.
pub open spec fn pieces(s: Seq<char>, separator: char) -> Seq<Seq<char>>
    decreases s.len(),
{
    if s.len() == 0 {
        seq![Seq::empty()]
    } else {
        let before = pieces(s.drop_last(), separator);
        if s.last() == separator {
            before.push(Seq::empty())
        } else {
            before.update(before.len() - 1, before.last().push(s.last()))
        }
    }
}

/// The parts of a text between the separators.
pub fn split<'a>(s: &'a str, separator: char) -> (r: Vec<&'a str>)
    ensures
        r@.map_values(|part: &'a str| part@) == pieces(s@, separator),
{
    let n: usize = s.unicode_len();
    let mut parts: Vec<&'a str> = Vec::new();
    let mut start: usize = 0;
    let mut i: usize = 0;
    let ghost seen = |part: &'a str| part@;
    proof {
        assert(s@.take(0) =~= Seq::empty());
        assert(s@.subrange(0, 0) =~= Seq::empty());
        assert(parts@.map_values(seen).push(s@.subrange(0, 0)) =~= pieces(s@.take(0), separator));
    }
    while i < n
        invariant
            start <= i <= n == s@.len(),
            seen == (|part: &'a str| part@),
            parts@.map_values(seen).push(s@.subrange(start as int, i as int)) == pieces(
                s@.take(i as int),
                separator,
            ),
        decreases n - i,
    {
        let ghost done = parts@.map_values(seen);
        let ghost open_part = s@.subrange(start as int, i as int);
        proof {
            let grown = s@.take(i + 1);
            assert(grown.drop_last() =~= s@.take(i as int));
            assert(grown.last() == s@[i as int]);
            assert(open_part.push(s@[i as int]) =~= s@.subrange(start as int, i + 1));
            assert(done.push(open_part).update(done.len() as int, open_part.push(s@[i as int]))
                =~= done.push(s@.subrange(start as int, i + 1)));
        }
        if s.get_char(i) == separator {
            parts.push(s.substring_char(start, i));
            start = i + 1;
            proof {
                assert(parts@.map_values(seen) =~= done.push(open_part));
                assert(s@.subrange(start as int, i + 1) =~= Seq::empty());
            }
        }
        i = i + 1;
    }
    assert(s@.take(i as int) =~= s@);
    let ghost done = parts@.map_values(seen);
    parts.push(s.substring_char(start, n));
    assert(parts@.map_values(seen) =~= done.push(s@.subrange(start as int, n as int)));
    parts
}

/// The place of the first `wanted` character.
pub fn find(s: &str, wanted: char) -> (r: Option<usize>)
    ensures
        match r {
            Some(at) => {
                &&& at < s@.len()
                &&& s@[at as int] == wanted
                &&& forall|k: int| 0 <= k < at ==> s@[k] != wanted
            },
            None => forall|k: int| 0 <= k < s@.len() ==> s@[k] != wanted,
        },
{
    let n: usize = s.unicode_len();
    let mut i: usize = 0;
    while i < n
        invariant
            i <= n == s@.len(),
            forall|k: int| 0 <= k < i ==> s@[k] != wanted,
        decreases n - i,
    {
        if s.get_char(i) == wanted {
            return Some(i);
        }
        i = i + 1;
    }
    None
}

/// What `quoted` makes of a text.
pub uninterp spec fn quoted_text(s: Seq<char>) -> Seq<char>;

/// `format!` with the `Debug` form of a `str`: the text in double quotes, with
/// its special characters escaped. What the escapes are is left unsaid.
#[verifier::external_body]
pub(crate) fn quoted(s: &str) -> (r: String)
    ensures
        r@ == quoted_text(s@),
{
    format!("{:?}", s)
}

/// Both texts have the same characters.
pub fn same_text(a: &str, b: &str) -> (r: bool)
    ensures
        r == (a@ == b@),
{
    let n: usize = a.unicode_len();
    if n != b.unicode_len() {
        return false;
    }
    let mut i: usize = 0;
    while i < n
        invariant
            i <= n,
            n == a@.len(),
            n == b@.len(),
            forall|k: int| 0 <= k < i ==> a@[k] == b@[k],
        decreases n - i,
    {
        if a.get_char(i) != b.get_char(i) {
            return false;
        }
        i = i + 1;
    }
    assert(a@ =~= b@);
    true
}

/// The parts with `separator` between each two.
pub open spec fn joined(parts: Seq<Seq<char>>, separator: char) -> Seq<char>
    decreases parts.len(),
{
    if parts.len() == 0 {
        Seq::empty()
    } else if parts.len() == 1 {
        parts[0]
    } else {
        joined(parts.drop_last(), separator).push(separator) + parts.last()
    }
}

/// Splitting a text loses nothing and leaves no separator in a part: the parts, joined
/// again, are the text.
pub proof fn law_pieces_make_up_the_text(s: Seq<char>, separator: char)
    ensures
        pieces(s, separator).len() >= 1,
        joined(pieces(s, separator), separator) == s,
        forall|k: int|
            0 <= k < pieces(s, separator).len() ==> !(#[trigger] pieces(
                s,
                separator,
            )[k]).contains(separator),
    decreases s.len(),
{
    let parts = pieces(s, separator);
    if s.len() == 0 {
        assert(joined(parts, separator) =~= s);
    } else {
        let before = pieces(s.drop_last(), separator);
        law_pieces_make_up_the_text(s.drop_last(), separator);
        if s.last() == separator {
            assert(parts.drop_last() =~= before);
            assert(joined(parts, separator) =~= s.drop_last().push(separator));
            assert(s =~= s.drop_last().push(separator));
            assert forall|k: int| 0 <= k < parts.len() implies !(
            #[trigger] parts[k]).contains(separator) by {
                if k < before.len() {
                    assert(parts[k] == before[k]);
                }
            }
        } else {
            let last = before.last();
            assert(parts.drop_last() =~= before.drop_last());
            assert(parts.last() == last.push(s.last()));
            if before.len() == 1 {
                assert(joined(parts, separator) =~= joined(before, separator).push(s.last()));
            } else {
                assert(joined(parts, separator) =~= joined(before, separator).push(s.last()));
            }
            assert(s =~= s.drop_last().push(s.last()));
            assert forall|k: int| 0 <= k < parts.len() implies !(
            #[trigger] parts[k]).contains(separator) by {
                if k < before.len() - 1 {
                    assert(parts[k] == before[k]);
                } else {
                    assert(parts[k] == last.push(s.last()));
                    assert(!before[k].contains(separator));
                    if parts[k].contains(separator) {
                        let at = choose|at: int|
                            0 <= at < parts[k].len() && parts[k][at] == separator;
                        assert(last[at] == separator);
                    }
                }
            }
        }
    }
}

proof fn lemma_trim_start(s: Seq<char>) -> (a: int)
    ensures
        0 <= a <= s.len(),
        trim_start(s) == s.skip(a),
        all_blank(s.take(a)),
        a < s.len() ==> !is_blank(s[a]),
    decreases s.len(),
{
    if s.len() > 0 && is_blank(s[0]) {
        let a = lemma_trim_start(s.skip(1));
        assert(s.skip(1).skip(a) =~= s.skip(a + 1));
        assert forall|i: int| 0 <= i < a + 1 implies is_blank(#[trigger] s.take(a + 1)[i]) by {
            if i > 0 {
                assert(s.skip(1).take(a)[i - 1] == s[i]);
            }
        }
        a + 1
    } else {
        assert(s.skip(0) =~= s);
        0
    }
}

proof fn lemma_trim_end(s: Seq<char>) -> (b: int)
    ensures
        0 <= b <= s.len(),
        trim_end(s) == s.take(b),
        all_blank(s.skip(b)),
        b > 0 ==> !is_blank(s[b - 1]),
    decreases s.len(),
{
    if s.len() > 0 && is_blank(s.last()) {
        let b = lemma_trim_end(s.drop_last());
        assert(s.drop_last().take(b) =~= s.take(b));
        assert forall|i: int| 0 <= i < s.skip(b).len() implies is_blank(
            #[trigger] s.skip(b)[i],
        ) by {
            if i < s.len() - b - 1 {
                assert(s.drop_last().skip(b)[i] == s[b + i]);
            }
        }
        b
    } else {
        assert(s.take(s.len() as int) =~= s);
        s.len() as int
    }
}

/// Trimming takes blanks off the ends and nothing else: what is left is a run of the
/// text with blanks alone before and behind it, and neither begins nor ends with one.
pub proof fn law_trimming_takes_blanks_alone(s: Seq<char>) -> (bounds: (int, int))
    ensures
        0 <= bounds.0 <= bounds.1 <= s.len(),
        trimmed(s) == s.subrange(bounds.0, bounds.1),
        all_blank(s.take(bounds.0)),
        all_blank(s.skip(bounds.1)),
        trimmed(s).len() > 0 ==> !is_blank(trimmed(s)[0]) && !is_blank(
            trimmed(s)[trimmed(s).len() - 1],
        ),
{
    let a = lemma_trim_start(s);
    let rest = s.skip(a);
    let b = lemma_trim_end(rest);
    assert(rest.take(b) =~= s.subrange(a, a + b));
    assert forall|i: int| 0 <= i < s.skip(a + b).len() implies is_blank(
        #[trigger] s.skip(a + b)[i],
    ) by {
        assert(rest.skip(b)[i] == s[a + b + i]);
    }
    if b > 0 {
        assert(rest[0] == s[a]);
        assert(rest[b - 1] == s[a + b - 1]);
    }
    (a, a + b)
}

} // verus!
