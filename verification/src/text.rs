//! Text as the rules of the proxy read it: sequences of characters, with the
//! whitespace, letter case, separators and decimal numbers that the rules name.
use vstd::prelude::*;

verus! {

broadcast use {vstd::string::group_string_axioms, vstd::std_specs::iter::group_iter_axioms};

/// `String::push` appends the given character at the end of the string.
pub assume_specification[ std::string::String::push ](text: &mut String, c: char)
    ensures
        final(text)@ == old(text)@.push(c),
;

// ---------------------------------------------------------------------------
// Characters
// ---------------------------------------------------------------------------

/// The characters with the Unicode property `White_Space`.
pub open spec fn is_white(c: char) -> bool {
    let code = c as u32;
    ||| 0x09 <= code <= 0x0d
    ||| code == 0x20
    ||| code == 0x85
    ||| code == 0xa0
    ||| code == 0x1680
    ||| 0x2000 <= code <= 0x200a
    ||| code == 0x2028
    ||| code == 0x2029
    ||| code == 0x202f
    ||| code == 0x205f
    ||| code == 0x3000
}

/// `c` with the ASCII capitals mapped to small letters, all else as it is.
pub open spec fn ascii_lower(c: char) -> char {
    if 'A' <= c && c <= 'Z' {
        ((c as u8) + 32) as char
    } else {
        c
    }
}

fn is_white_char(c: char) -> (r: bool)
    ensures
        r == is_white(c),
{
    let code: u32 = c as u32;
    (0x09 <= code && code <= 0x0d) || code == 0x20 || code == 0x85 || code == 0xa0 || code == 0x1680
        || (0x2000 <= code && code <= 0x200a) || code == 0x2028 || code == 0x2029 || code == 0x202f
        || code == 0x205f || code == 0x3000
}

fn code_of(c: char) -> (r: u32)
    ensures
        r == c as int,
{
    c as u32
}

fn lower_char(c: char) -> (r: char)
    ensures
        r == ascii_lower(c),
{
    if 'A' <= c && c <= 'Z' {
        (c as u8 + 32) as char
    } else {
        c
    }
}

// ---------------------------------------------------------------------------
// Between strings and character vectors
// ---------------------------------------------------------------------------

/// The texts of a sequence of strings.
pub open spec fn texts(strings: Seq<String>) -> Seq<Seq<char>> {
    strings.map_values(|s: String| s@)
}

/// The text of an optional string.
pub open spec fn text_option(value: Option<String>) -> Option<Seq<char>> {
    match value {
        Some(s) => Some(s@),
        None => None,
    }
}

/// The characters of `s`.
pub fn chars_of(s: &str) -> (r: Vec<char>)
    ensures
        r@ == s@,
{
    let mut out: Vec<char> = Vec::new();
    for c in it: s.chars()
        invariant
            out@ == it.seq().take(it.index() as int),
            it.seq() == s@,
    {
        out.push(c);
    }
    out
}

/// The string with the characters `from..to` of `chars`.
pub fn string_of(chars: &Vec<char>, from: usize, to: usize) -> (r: String)
    requires
        from <= to <= chars@.len(),
    ensures
        r@ == chars@.subrange(from as int, to as int),
{
    let mut out: String = String::new();
    let mut i: usize = from;
    while i < to
        invariant
            from <= i <= to <= chars@.len(),
            out@ == chars@.subrange(from as int, i as int),
        decreases to - i,
    {
        out.push(chars[i]);
        i += 1;
        assert(chars@.subrange(from as int, i as int) == chars@.subrange(
            from as int,
            i - 1,
        ).push(chars@[i - 1]));
    }
    out
}

/// A fresh string with the text of `s`.
pub fn copy_text(s: &str) -> (r: String)
    ensures
        r@ == s@,
{
    s.to_owned()
}

/// Whether two texts are the same.
pub fn same_text(a: &str, b: &str) -> (r: bool)
    ensures
        r == (a@ == b@),
{
    let left: Vec<char> = chars_of(a);
    let right: Vec<char> = chars_of(b);
    same_chars(&left, &right)
}

fn same_chars(left: &Vec<char>, right: &Vec<char>) -> (r: bool)
    ensures
        r == (left@ == right@),
{
    if left.len() != right.len() {
        return false;
    }
    let mut i: usize = 0;
    while i < left.len()
        invariant
            i <= left@.len(),
            left@.len() == right@.len(),
            forall|k: int| 0 <= k < i ==> left@[k] == right@[k],
        decreases left@.len() - i,
    {
        if left[i] != right[i] {
            return false;
        }
        i += 1;
    }
    assert(left@ =~= right@);
    true
}

/// Whether `needle` is one of `haystack`.
pub fn contains_text(haystack: &Vec<String>, needle: &String) -> (r: bool)
    ensures
        r == texts(haystack@).contains(needle@),
{
    let mut i: usize = 0;
    while i < haystack.len()
        invariant
            i <= haystack@.len(),
            forall|k: int| 0 <= k < i ==> texts(haystack@)[k] != needle@,
        decreases haystack@.len() - i,
    {
        if haystack[i] == *needle {
            assert(texts(haystack@)[i as int] == needle@);
            return true;
        }
        i += 1;
    }
    false
}

// ---------------------------------------------------------------------------
// Trimming
// ---------------------------------------------------------------------------

/// `s` without the whitespace that it starts with.
pub open spec fn without_leading_white(s: Seq<char>) -> Seq<char>
    decreases s.len(),
{
    if s.len() > 0 && is_white(s[0]) {
        without_leading_white(s.drop_first())
    } else {
        s
    }
}

/// `s` without the whitespace that it ends with.
pub open spec fn without_trailing_white(s: Seq<char>) -> Seq<char>
    decreases s.len(),
{
    if s.len() > 0 && is_white(s.last()) {
        without_trailing_white(s.drop_last())
    } else {
        s
    }
}

/// `s` without the whitespace around it.
pub open spec fn trimmed(s: Seq<char>) -> Seq<char> {
    without_trailing_white(without_leading_white(s))
}

/// `s` without the characters `c` that it ends with.
pub open spec fn without_trailing(s: Seq<char>, c: char) -> Seq<char>
    decreases s.len(),
{
    if s.len() > 0 && s.last() == c {
        without_trailing(s.drop_last(), c)
    } else {
        s
    }
}

/// The text without the whitespace around it.
pub fn trim(s: &str) -> (r: String)
    ensures
        r@ == trimmed(s@),
{
    let chars: Vec<char> = chars_of(s);
    let mut from: usize = 0;
    assert(s@.subrange(0, s@.len() as int) == s@);
    while from < chars.len() && is_white_char(chars[from])
        invariant
            chars@ == s@,
            from <= chars@.len(),
            without_leading_white(s@) == without_leading_white(s@.skip(from as int)),
        decreases chars@.len() - from,
    {
        assert(s@.skip(from as int).drop_first() == s@.skip(from + 1));
        from += 1;
    }
    let ghost rest = s@.skip(from as int);
    assert(without_leading_white(s@) == rest);
    let mut to: usize = chars.len();
    assert(rest.take(to - from) == rest);
    while to > from && is_white_char(chars[to - 1])
        invariant
            chars@ == s@,
            from <= to <= chars@.len(),
            rest == s@.skip(from as int),
            without_trailing_white(rest) == without_trailing_white(rest.take(to - from)),
        decreases to,
    {
        assert(rest.take(to - from).drop_last() == rest.take(to - 1 - from));
        to -= 1;
    }
    assert(rest.take(to - from) == s@.subrange(from as int, to as int));
    string_of(&chars, from, to)
}

/// The text without the characters `c` that it ends with.
pub fn trim_end_of(s: &str, c: char) -> (r: String)
    ensures
        r@ == without_trailing(s@, c),
{
    let chars: Vec<char> = chars_of(s);
    let mut to: usize = chars.len();
    assert(s@.take(to as int) == s@);
    while to > 0 && chars[to - 1] == c
        invariant
            chars@ == s@,
            to <= chars@.len(),
            without_trailing(s@, c) == without_trailing(s@.take(to as int), c),
        decreases to,
    {
        assert(s@.take(to as int).drop_last() == s@.take(to - 1));
        to -= 1;
    }
    assert(s@.take(to as int) == s@.subrange(0, to as int));
    string_of(&chars, 0, to)
}

/// Trimming twice is trimming once, and what is left neither starts nor ends with whitespace.
pub proof fn trimming_is_idempotent(s: Seq<char>)
    ensures
        trimmed(trimmed(s)) == trimmed(s),
        trimmed(s).len() > 0 ==> !is_white(trimmed(s)[0]) && !is_white(trimmed(s).last()),
{
    lemma_leading(s);
    lemma_trailing(without_leading_white(s));
}

proof fn lemma_leading(s: Seq<char>)
    ensures
        without_leading_white(s).len() > 0 ==> !is_white(without_leading_white(s)[0]),
    decreases s.len(),
{
    if s.len() > 0 && is_white(s[0]) {
        lemma_leading(s.drop_first());
    }
}

proof fn lemma_trailing(s: Seq<char>)
    ensures
        without_trailing_white(s).len() > 0 ==> !is_white(without_trailing_white(s).last())
            && without_trailing_white(s)[0] == s[0],
        without_trailing_white(s).len() <= s.len(),
    decreases s.len(),
{
    if s.len() > 0 && is_white(s.last()) {
        lemma_trailing(s.drop_last());
    }
}

/// Dropping a trailing character twice is dropping it once.
pub proof fn dropping_trailing_is_idempotent(s: Seq<char>, c: char)
    ensures
        without_trailing(without_trailing(s, c), c) == without_trailing(s, c),
    decreases s.len(),
{
    if s.len() > 0 && s.last() == c {
        dropping_trailing_is_idempotent(s.drop_last(), c);
    }
}

// ---------------------------------------------------------------------------
// Letter case
// ---------------------------------------------------------------------------

/// `s` in ASCII small letters.
pub open spec fn lowered(s: Seq<char>) -> Seq<char> {
    s.map_values(|c: char| ascii_lower(c))
}

/// Whether two texts differ in ASCII letter case at most.
pub open spec fn same_ignoring_case(a: Seq<char>, b: Seq<char>) -> bool {
    lowered(a) == lowered(b)
}

/// The text in ASCII small letters.
pub fn to_lower(s: &str) -> (r: String)
    ensures
        r@ == lowered(s@),
{
    let chars: Vec<char> = chars_of(s);
    let mut out: String = String::new();
    let mut i: usize = 0;
    while i < chars.len()
        invariant
            chars@ == s@,
            i <= chars@.len(),
            out@ == lowered(s@).take(i as int),
        decreases chars@.len() - i,
    {
        out.push(lower_char(chars[i]));
        i += 1;
        assert(lowered(s@).take(i as int) == lowered(s@).take(i - 1).push(lowered(s@)[i - 1]));
    }
    assert(lowered(s@).take(i as int) == lowered(s@));
    out
}

/// Whether two texts differ in ASCII letter case at most.
pub fn eq_ignoring_case(a: &str, b: &str) -> (r: bool)
    ensures
        r == same_ignoring_case(a@, b@),
{
    let left: String = to_lower(a);
    let right: String = to_lower(b);
    left == right
}

/// Lowering twice is lowering once.
pub proof fn lowering_is_idempotent(s: Seq<char>)
    ensures
        lowered(lowered(s)) == lowered(s),
{
    assert(lowered(lowered(s)) =~= lowered(s));
}

// ---------------------------------------------------------------------------
// Order
// ---------------------------------------------------------------------------

/// Whether `a` comes strictly before `b` in the order of the code points, the
/// order in which strings compare.
pub open spec fn text_before(a: Seq<char>, b: Seq<char>) -> bool
    decreases a.len(),
{
    if b.len() == 0 {
        false
    } else if a.len() == 0 {
        true
    } else if a[0] == b[0] {
        text_before(a.drop_first(), b.drop_first())
    } else {
        (a[0] as int) < (b[0] as int)
    }
}

/// Whether `a` comes strictly before `b`.
pub fn is_before(a: &str, b: &str) -> (r: bool)
    ensures
        r == text_before(a@, b@),
{
    let left: Vec<char> = chars_of(a);
    let right: Vec<char> = chars_of(b);
    let mut i: usize = 0;
    assert(a@.skip(0) == a@);
    assert(b@.skip(0) == b@);
    while i < left.len() && i < right.len()
        invariant
            left@ == a@,
            right@ == b@,
            i <= left@.len(),
            i <= right@.len(),
            text_before(a@, b@) == text_before(a@.skip(i as int), b@.skip(i as int)),
        decreases left@.len() - i,
    {
        if left[i] != right[i] {
            return code_of(left[i]) < code_of(right[i]);
        }
        assert(a@.skip(i as int).drop_first() == a@.skip(i + 1));
        assert(b@.skip(i as int).drop_first() == b@.skip(i + 1));
        i += 1;
    }
    i < right.len()
}

/// The order of texts is a strict total order.
pub proof fn text_order_is_total(a: Seq<char>, b: Seq<char>)
    ensures
        !(text_before(a, b) && text_before(b, a)),
        !text_before(a, b) && !text_before(b, a) <==> a == b,
    decreases a.len(),
{
    if a.len() > 0 && b.len() > 0 {
        if a[0] == b[0] {
            text_order_is_total(a.drop_first(), b.drop_first());
            assert(a == seq![a[0]] + a.drop_first());
            assert(b == seq![b[0]] + b.drop_first());
        }
    } else if a.len() == 0 && b.len() == 0 {
        assert(a =~= b);
    }
}

/// The order of texts is transitive.
pub proof fn text_order_is_transitive(a: Seq<char>, b: Seq<char>, c: Seq<char>)
    requires
        text_before(a, b),
        text_before(b, c),
    ensures
        text_before(a, c),
    decreases a.len(),
{
    if a.len() > 0 {
        if a[0] == b[0] && b[0] == c[0] {
            text_order_is_transitive(a.drop_first(), b.drop_first(), c.drop_first());
        }
    }
}

/// What does not come before a text that does not come before a third does not come before the
/// third either.
pub proof fn text_order_is_negatively_transitive(a: Seq<char>, b: Seq<char>, c: Seq<char>)
    requires
        !text_before(a, b),
        !text_before(b, c),
    ensures
        !text_before(a, c),
{
    text_order_is_total(a, b);
    if text_before(a, c) && text_before(b, a) {
        text_order_is_transitive(b, a, c);
    }
}

// ---------------------------------------------------------------------------
// Separated parts
// ---------------------------------------------------------------------------

/// The parts of `s` between the separators `sep`: one more than there are separators.
pub open spec fn split(s: Seq<char>, sep: char) -> Seq<Seq<char>>
    decreases s.len(),
{
    if s.len() == 0 {
        seq![Seq::<char>::empty()]
    } else {
        let parts = split(s.drop_last(), sep);
        if s.last() == sep {
            parts.push(Seq::<char>::empty())
        } else {
            parts.drop_last().push(parts.last().push(s.last()))
        }
    }
}

/// The texts put one after the other with `sep` between them.
pub open spec fn joined(parts: Seq<Seq<char>>, sep: Seq<char>) -> Seq<char>
    decreases parts.len(),
{
    if parts.len() == 0 {
        Seq::<char>::empty()
    } else if parts.len() == 1 {
        parts[0]
    } else {
        joined(parts.drop_last(), sep) + sep + parts.last()
    }
}

/// The non-empty segments of a path.
pub open spec fn path_segments(path: Seq<char>) -> Seq<Seq<char>> {
    split(path, '/').filter(|part: Seq<char>| part.len() > 0)
}

/// The parts of a split are the text itself once the separators are put back,
/// and none of them holds a separator.
pub proof fn split_parts_join_back(s: Seq<char>, sep: char)
    ensures
        joined(split(s, sep), seq![sep]) == s,
        split(s, sep).len() > 0,
        forall|i: int| 0 <= i < split(s, sep).len() ==> !(#[trigger] split(s, sep)[i]).contains(sep),
    decreases s.len(),
{
    if s.len() > 0 {
        let before = split(s.drop_last(), sep);
        let parts = split(s, sep);
        split_parts_join_back(s.drop_last(), sep);
        assert(s == s.drop_last().push(s.last()));
        if s.last() == sep {
            assert(parts.drop_last() == before);
            assert(joined(parts, seq![sep]) =~= s);
        } else {
            assert(parts.drop_last() == before.drop_last());
            assert(joined(parts, seq![sep]) =~= s);
            assert forall|i: int| 0 <= i < parts.len() implies !(#[trigger] parts[i]).contains(
                sep,
            ) by {
                if i < parts.len() - 1 {
                    assert(parts[i] == before[i]);
                } else {
                    assert(!before.last().contains(sep));
                    if parts[i].contains(sep) {
                        let k = choose|k: int| 0 <= k < parts[i].len() && parts[i][k] == sep;
                        assert(before.last()[k] == sep);
                    }
                }
            }
        }
    } else {
        assert(joined(split(s, sep), seq![sep]) =~= s);
    }
}

/// The parts of the text between the separators.
fn split_text(s: &str, sep: char) -> (r: Vec<String>)
    ensures
        texts(r@) == split(s@, sep),
{
    let chars: Vec<char> = chars_of(s);
    let mut parts: Vec<String> = Vec::new();
    let mut current: String = String::new();
    let mut i: usize = 0;
    assert(texts(parts@).push(current@) =~= split(s@.take(0), sep));
    while i < chars.len()
        invariant
            chars@ == s@,
            i <= chars@.len(),
            texts(parts@).push(current@) == split(s@.take(i as int), sep),
        decreases chars@.len() - i,
    {
        let ghost before = texts(parts@).push(current@);
        assert(s@.take(i + 1).drop_last() == s@.take(i as int));
        assert(before.drop_last() == texts(parts@));
        if chars[i] == sep {
            let ghost done = parts@;
            let ghost last = current;
            parts.push(current);
            assert(texts(parts@) =~= texts(done).push(last@));
            current = String::new();
        } else {
            current.push(chars[i]);
        }
        i += 1;
    }
    assert(s@.take(i as int) == s@);
    let ghost done = parts@;
    let ghost last = current;
    parts.push(current);
    assert(texts(parts@) =~= texts(done).push(last@));
    parts
}

/// The non-empty segments of the path.
pub fn segments_of(path: &str) -> (r: Vec<String>)
    ensures
        texts(r@) == path_segments(path@),
{
    let parts: Vec<String> = split_text(path, '/');
    let mut out: Vec<String> = Vec::new();
    let mut i: usize = 0;
    let ghost kept = |part: Seq<char>| part.len() > 0;
    proof {
        reveal(Seq::filter);
        assert(texts(out@) =~= texts(parts@).take(0).filter(kept));
    }
    while i < parts.len()
        invariant
            i <= parts@.len(),
            kept == |part: Seq<char>| part.len() > 0,
            texts(out@) == texts(parts@).take(i as int).filter(kept),
        decreases parts@.len() - i,
    {
        proof {
            reveal(Seq::filter);
            assert(texts(parts@).take(i + 1).drop_last() == texts(parts@).take(i as int));
        }
        let ghost before = out@;
        if !parts[i].as_str().is_empty() {
            out.push(parts[i].clone());
            assert(texts(out@) =~= texts(before).push(parts@[i as int]@));
        }
        i += 1;
    }
    assert(texts(parts@).take(i as int) == texts(parts@));
    out
}

/// The strings put one after the other with `sep` between them.
pub fn join_texts(parts: &Vec<String>, sep: &str) -> (r: String)
    ensures
        r@ == joined(texts(parts@), sep@),
{
    let mut out: String = String::new();
    let mut i: usize = 0;
    assert(out@ =~= joined(texts(parts@).take(0), sep@));
    while i < parts.len()
        invariant
            i <= parts@.len(),
            out@ == joined(texts(parts@).take(i as int), sep@),
        decreases parts@.len() - i,
    {
        assert(texts(parts@).take(i + 1).drop_last() == texts(parts@).take(i as int));
        if i > 0 {
            out.append(sep);
        }
        out.append(parts[i].as_str());
        i += 1;
        assert(out@ =~= joined(texts(parts@).take(i as int), sep@));
    }
    assert(texts(parts@).take(i as int) == texts(parts@));
    out
}

// ---------------------------------------------------------------------------
// Decimal numbers
// ---------------------------------------------------------------------------

/// The character of a decimal digit.
pub open spec fn digit_char(d: nat) -> char {
    ((d + 48) as u8) as char
}

/// The decimal digits of `n`, without leading zeros.
pub open spec fn digits(n: nat) -> Seq<char>
    decreases n,
{
    if n < 10 {
        seq![digit_char(n)]
    } else {
        digits(n / 10).push(digit_char(n % 10))
    }
}

/// `n` in decimal, with a minus sign where it is negative.
pub open spec fn decimal(n: int) -> Seq<char> {
    if n < 0 {
        seq!['-'] + digits((-n) as nat)
    } else {
        digits(n as nat)
    }
}

fn push_digits(n: u128, out: &mut String)
    ensures
        final(out)@ == old(out)@ + digits(n as nat),
    decreases n,
{
    if n < 10 {
        out.push((n as u8 + 48) as char);
    } else {
        push_digits(n / 10, out);
        out.push(((n % 10) as u8 + 48) as char);
    }
    assert(out@ =~= old(out)@ + digits(n as nat));
}

/// The number in decimal.
pub fn decimal_text(n: i64) -> (r: String)
    ensures
        r@ == decimal(n as int),
{
    let mut out: String = String::new();
    if n < 0 {
        out.push('-');
        let magnitude: i128 = -(n as i128);
        push_digits(magnitude as u128, &mut out);
    } else {
        push_digits(n as u128, &mut out);
    }
    assert(out@ =~= decimal(n as int));
    out
}

/// The number in decimal.
pub fn count_text(n: usize) -> (r: String)
    ensures
        r@ == decimal(n as int),
{
    let mut out: String = String::new();
    push_digits(n as u128, &mut out);
    assert(out@ =~= decimal(n as int));
    out
}

/// Every character of a decimal number is a digit or a minus sign.
pub proof fn decimal_holds_digits_only(n: int)
    ensures
        decimal(n).len() > 0,
        forall|i: int|
            0 <= i < decimal(n).len() ==> (#[trigger] decimal(n)[i]) == '-' || ('0' <= decimal(n)[i]
                && decimal(n)[i] <= '9'),
{
    lemma_digits(if n < 0 { (-n) as nat } else { n as nat });
}

proof fn lemma_digits(n: nat)
    ensures
        digits(n).len() > 0,
        forall|i: int|
            0 <= i < digits(n).len() ==> '0' <= #[trigger] digits(n)[i] && digits(n)[i] <= '9',
    decreases n,
{
    if n >= 10 {
        lemma_digits(n / 10);
    }
}

proof fn lemma_digits_injective(a: nat, b: nat)
    requires
        digits(a) == digits(b),
    ensures
        a == b,
    decreases a,
{
    if a >= 10 {
        lemma_digits(a / 10);
    }
    if b >= 10 {
        lemma_digits(b / 10);
    }
    assert(forall|d: nat| d < 10 ==> (#[trigger] digit_char(d)) as u32 == d + 48);
    if a < 10 || b < 10 {
        assert(a >= 10 ==> digits(a).len() > 1);
        assert(b >= 10 ==> digits(b).len() > 1);
        assert(digits(a)[0] == digit_char(a) && digits(b)[0] == digit_char(b));
        assert(digit_char(a) as u32 == digit_char(b) as u32);
    } else {
        assert(digits(a).drop_last() =~= digits(a / 10));
        assert(digits(b).drop_last() =~= digits(b / 10));
        lemma_digits_injective(a / 10, b / 10);
        assert(digits(a).last() == digit_char(a % 10));
        assert(digits(b).last() == digit_char(b % 10));
        assert(digit_char(a % 10) as u32 == digit_char(b % 10) as u32);
        assert(a % 10 + 48 == b % 10 + 48);
    }
}

/// Different numbers are written differently.
pub proof fn decimal_is_injective(a: int, b: int)
    requires
        decimal(a) == decimal(b),
    ensures
        a == b,
{
    let left = if a < 0 { (-a) as nat } else { a as nat };
    let right = if b < 0 { (-b) as nat } else { b as nat };
    lemma_digits(left);
    lemma_digits(right);
    assert(a < 0 ==> decimal(a)[0] == '-');
    assert(b < 0 ==> decimal(b)[0] == '-');
    assert(a >= 0 ==> decimal(a)[0] == digits(left)[0]);
    assert(b >= 0 ==> decimal(b)[0] == digits(right)[0]);
    if a < 0 && b < 0 {
        assert(decimal(a).drop_first() =~= digits(left));
        assert(decimal(b).drop_first() =~= digits(right));
    }
    if (a < 0) == (b < 0) {
        lemma_digits_injective(left, right);
    }
}

// ---------------------------------------------------------------------------
// What the rules on text come to
// ---------------------------------------------------------------------------

/// White space is the tab to the carriage return, the space, and the wider spaces and separators
/// of Unicode; nothing else.
pub proof fn white_space_is_what_unicode_says(c: char)
    ensures
        is_white(c) <==> {
            let code = c as u32;
            ||| code == 9 || code == 10 || code == 11 || code == 12 || code == 13 || code == 32
            ||| code == 133 || code == 160 || code == 5760
            ||| 8192 <= code <= 8202
            ||| code == 8232 || code == 8233 || code == 8239 || code == 8287 || code == 12288
        },
{
}

/// Trimming takes white space off both ends and nothing else: what is left is the part between the
/// first and the last character that is not white.
pub proof fn trimming_takes_off_white_space_only(s: Seq<char>) -> (r: (int, int))
    ensures
        0 <= r.0 <= r.1 <= s.len(),
        trimmed(s) == s.subrange(r.0, r.1),
        forall|i: int| 0 <= i < r.0 ==> is_white(#[trigger] s[i]),
        forall|i: int| r.1 <= i < s.len() ==> is_white(#[trigger] s[i]),
        r.0 < r.1 ==> !is_white(s[r.0]) && !is_white(s[r.1 - 1]),
{
    let from = lemma_leading_is_cut_off(s);
    let rest = without_leading_white(s);
    let n = lemma_trailing_is_cut_off(rest);
    assert(trimmed(s) =~= s.subrange(from, from + n));
    assert forall|i: int| from + n <= i < s.len() implies is_white(#[trigger] s[i]) by {
        assert(rest[i - from] == s[i]);
    }
    (from, from + n)
}

proof fn lemma_leading_is_cut_off(s: Seq<char>) -> (from: int)
    ensures
        0 <= from <= s.len(),
        without_leading_white(s) == s.skip(from),
        forall|i: int| 0 <= i < from ==> is_white(#[trigger] s[i]),
        from < s.len() ==> !is_white(s[from]),
    decreases s.len(),
{
    if s.len() > 0 && is_white(s[0]) {
        let rest = s.drop_first();
        let from = lemma_leading_is_cut_off(rest);
        assert(rest.skip(from) =~= s.skip(from + 1));
        assert forall|i: int| 0 <= i < from + 1 implies is_white(#[trigger] s[i]) by {
            if i > 0 {
                assert(rest[i - 1] == s[i]);
            }
        }
        from + 1
    } else {
        assert(s.skip(0) =~= s);
        0
    }
}

proof fn lemma_trailing_is_cut_off(s: Seq<char>) -> (n: int)
    ensures
        0 <= n <= s.len(),
        without_trailing_white(s) == s.take(n),
        forall|i: int| n <= i < s.len() ==> is_white(#[trigger] s[i]),
        n > 0 ==> !is_white(s[n - 1]),
    decreases s.len(),
{
    if s.len() > 0 && is_white(s.last()) {
        let rest = s.drop_last();
        let n = lemma_trailing_is_cut_off(rest);
        assert(rest.take(n) =~= s.take(n));
        assert forall|i: int| n <= i < s.len() implies is_white(#[trigger] s[i]) by {
            if i < rest.len() {
                assert(rest[i] == s[i]);
            }
        }
        n
    } else {
        assert(s.take(s.len() as int) =~= s);
        s.len() as int
    }
}

/// Dropping the trailing characters of one sort drops all of them and nothing else.
pub proof fn all_trailing_characters_are_dropped(s: Seq<char>, c: char) -> (n: int)
    ensures
        0 <= n <= s.len(),
        without_trailing(s, c) == s.take(n),
        forall|i: int| n <= i < s.len() ==> #[trigger] s[i] == c,
        n > 0 ==> s[n - 1] != c,
    decreases s.len(),
{
    if s.len() > 0 && s.last() == c {
        let rest = s.drop_last();
        let n = all_trailing_characters_are_dropped(rest, c);
        assert(rest.take(n) =~= s.take(n));
        assert forall|i: int| n <= i < s.len() implies #[trigger] s[i] == c by {
            if i < rest.len() {
                assert(rest[i] == s[i]);
            }
        }
        n
    } else {
        assert(s.take(s.len() as int) =~= s);
        s.len() as int
    }
}

/// Small letters stand in place of the capitals `A` to `Z`; every other character stays.
pub proof fn capitals_become_small_letters(s: Seq<char>, i: int)
    requires
        0 <= i < s.len(),
    ensures
        lowered(s).len() == s.len(),
        lowered(s)[i] as u32 == if 65 <= s[i] as u32 <= 90 {
            s[i] as u32 + 32
        } else {
            s[i] as u32 as int
        },
{
}

/// Two texts are the same without regard to letter case where they have the same characters but
/// for capitals in place of small letters.
pub proof fn letter_case_does_not_count(a: Seq<char>, b: Seq<char>)
    ensures
        same_ignoring_case(a, b) <==> {
            &&& a.len() == b.len()
            &&& forall|i: int|
                0 <= i < a.len() ==> {
                    let x = #[trigger] a[i] as u32;
                    let y = b[i] as u32;
                    ||| x == y
                    ||| 65 <= x <= 90 && y == x + 32
                    ||| 65 <= y <= 90 && x == y + 32
                }
        },
{
    if same_ignoring_case(a, b) {
        assert(lowered(a).len() == a.len() && lowered(b).len() == b.len());
        assert forall|i: int| 0 <= i < a.len() implies {
            let x = #[trigger] a[i] as u32;
            let y = b[i] as u32;
            ||| x == y
            ||| 65 <= x <= 90 && y == x + 32
            ||| 65 <= y <= 90 && x == y + 32
        } by {
            assert(lowered(a)[i] == lowered(b)[i]);
            assert(lowered(a)[i] == ascii_lower(a[i]));
            assert(lowered(b)[i] == ascii_lower(b[i]));
        }
    } else if a.len() == b.len() {
        assert(!(lowered(a) =~= lowered(b)));
        let i = choose|i: int| 0 <= i < a.len() && lowered(a)[i] != lowered(b)[i];
        assert(ascii_lower(a[i]) != ascii_lower(b[i]));
        let x = a[i] as u32;
    }
}

/// A text comes before another where it is a proper beginning of it, or where at the first place
/// at which they differ its character has the smaller number.
pub proof fn texts_stand_by_their_first_difference(a: Seq<char>, b: Seq<char>)
    ensures
        text_before(a, b) <==> exists|k: int|
            {
                &&& 0 <= k <= a.len()
                &&& k < b.len()
                &&& #[trigger] a.take(k) == b.take(k)
                &&& k == a.len() || (a[k] as int) < (b[k] as int)
            },
    decreases a.len(),
{
    if b.len() > 0 {
        if a.len() == 0 {
            assert(a.take(0) == b.take(0));
        } else if a[0] == b[0] {
            let x = a.drop_first();
            let y = b.drop_first();
            texts_stand_by_their_first_difference(x, y);
            if text_before(a, b) {
                let k = choose|k: int|
                    {
                        &&& 0 <= k <= x.len()
                        &&& k < y.len()
                        &&& #[trigger] x.take(k) == y.take(k)
                        &&& k == x.len() || (x[k] as int) < (y[k] as int)
                    };
                assert(a.take(k + 1) =~= seq![a[0]] + x.take(k));
                assert(b.take(k + 1) =~= seq![b[0]] + y.take(k));
                assert(a.take(k + 1) == b.take(k + 1));
            }
            if exists|k: int|
                {
                    &&& 0 <= k <= a.len()
                    &&& k < b.len()
                    &&& #[trigger] a.take(k) == b.take(k)
                    &&& k == a.len() || (a[k] as int) < (b[k] as int)
                } {
                let k = choose|k: int|
                    {
                        &&& 0 <= k <= a.len()
                        &&& k < b.len()
                        &&& #[trigger] a.take(k) == b.take(k)
                        &&& k == a.len() || (a[k] as int) < (b[k] as int)
                    };
                assert(k > 0);
                assert(x.take(k - 1) =~= a.take(k).drop_first());
                assert(y.take(k - 1) =~= b.take(k).drop_first());
                assert(x.take(k - 1) == y.take(k - 1));
            }
        } else {
            assert(a.take(0) =~= b.take(0));
            if exists|k: int|
                {
                    &&& 0 <= k <= a.len()
                    &&& k < b.len()
                    &&& #[trigger] a.take(k) == b.take(k)
                    &&& k == a.len() || (a[k] as int) < (b[k] as int)
                } {
                let k = choose|k: int|
                    {
                        &&& 0 <= k <= a.len()
                        &&& k < b.len()
                        &&& #[trigger] a.take(k) == b.take(k)
                        &&& k == a.len() || (a[k] as int) < (b[k] as int)
                    };
                if k > 0 {
                    assert(a.take(k)[0] == a[0] && b.take(k)[0] == b[0]);
                }
            }
        }
    }
}

/// Texts are joined in their order with the separator between each two of them: joining two lists
/// and then the two texts is joining the lists at once.
pub proof fn joining_puts_a_separator_between_texts(
    one: Seq<Seq<char>>,
    other: Seq<Seq<char>>,
    sep: Seq<char>,
)
    ensures
        joined(Seq::<Seq<char>>::empty(), sep) == Seq::<char>::empty(),
        one.len() == 1 ==> joined(one, sep) == one[0],
        one.len() > 0 && other.len() > 0 ==> joined(one + other, sep) == joined(one, sep) + sep
            + joined(other, sep),
    decreases other.len(),
{
    if one.len() > 0 && other.len() > 0 {
        let all = one + other;
        assert(all.last() == other.last());
        if other.len() == 1 {
            assert(all.drop_last() =~= one);
        } else {
            joining_puts_a_separator_between_texts(one, other.drop_last(), sep);
            assert(all.drop_last() =~= one + other.drop_last());
        }
        assert(joined(all, sep) =~= joined(one, sep) + sep + joined(other, sep));
    }
}

proof fn lemma_split_at_separator(a: Seq<char>, b: Seq<char>, sep: char)
    ensures
        split(a.push(sep) + b, sep) == split(a, sep) + split(b, sep),
        split(b, sep).len() > 0,
    decreases b.len(),
{
    if b.len() == 0 {
        assert(a.push(sep) + b =~= a.push(sep));
        assert(a.push(sep).drop_last() =~= a);
        assert(split(a, sep).push(Seq::<char>::empty()) =~= split(a, sep) + split(b, sep));
    } else {
        let whole = a.push(sep) + b;
        lemma_split_at_separator(a, b.drop_last(), sep);
        assert(whole.drop_last() =~= a.push(sep) + b.drop_last());
        assert(whole.last() == b.last());
        let left = split(a, sep);
        let right = split(b.drop_last(), sep);
        assert((left + right).drop_last() =~= left + right.drop_last());
        assert((left + right).last() == right.last());
        assert(split(whole, sep) =~= left + split(b, sep));
    }
}

/// The segments of a path are what stands between its slashes: those on both sides of a slash
/// stand one after the other, a text without a slash is one segment, and there is none in nothing.
pub proof fn slashes_separate_segments(one: Seq<char>, other: Seq<char>)
    ensures
        path_segments(one.push('/') + other) == path_segments(one) + path_segments(other),
        path_segments(Seq::<char>::empty()) == Seq::<Seq<char>>::empty(),
        one.len() > 0 && !one.contains('/') ==> path_segments(one) == seq![one],
{
    reveal(Seq::filter);
    let kept = |part: Seq<char>| part.len() > 0;
    lemma_split_at_separator(one, other, '/');
    Seq::filter_distributes_over_add(split(one, '/'), split(other, '/'), kept);
    let none = seq![Seq::<char>::empty()];
    assert(Seq::<Seq<char>>::empty().filter(kept) =~= Seq::<Seq<char>>::empty());
    assert(none.drop_last() =~= Seq::<Seq<char>>::empty());
    assert(none.filter(kept) =~= Seq::<Seq<char>>::empty());
    if one.len() > 0 && !one.contains('/') {
        lemma_no_separator(one, '/');
        assert(seq![one].drop_last() =~= Seq::<Seq<char>>::empty());
        assert(seq![one].filter(kept) =~= seq![one]);
    }
}

proof fn lemma_no_separator(s: Seq<char>, sep: char)
    requires
        !s.contains(sep),
    ensures
        split(s, sep) == seq![s],
    decreases s.len(),
{
    if s.len() == 0 {
        assert(s =~= Seq::<char>::empty());
    } else {
        let rest = s.drop_last();
        if rest.contains(sep) {
            let i = choose|i: int| 0 <= i < rest.len() && rest[i] == sep;
            assert(s[i] == sep);
        }
        assert(s.last() != sep) by {
            assert(s[s.len() - 1] == s.last());
        }
        lemma_no_separator(rest, sep);
        assert(rest.push(s.last()) =~= s);
        assert(split(s, sep) =~= seq![s]);
    }
}

/// A number is written with its last digit last and the number of its tens before it; a number
/// below ten is one digit, and a minus sign goes before the digits of a negative number.
pub proof fn numbers_are_written_digit_by_digit(tens: nat, ones: nat)
    requires
        ones < 10,
    ensures
        decimal((10 * tens + ones) as int).last() as u32 == 48 + ones,
        tens == 0 ==> decimal((10 * tens + ones) as int).len() == 1,
        tens > 0 ==> decimal((10 * tens + ones) as int).drop_last() == decimal(tens as int),
        10 * tens + ones > 0 ==> decimal(-((10 * tens + ones) as int)) == seq!['-'] + decimal(
            (10 * tens + ones) as int,
        ),
{
    let n = 10 * tens + ones;
    assert(n / 10 == tens && n % 10 == ones);
    if tens > 0 {
        assert(digits(n).drop_last() =~= digits(tens));
    }
}

} // verus!
