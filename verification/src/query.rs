//! Query strings and posted forms: name and value pairs in the urlencoded form syntax.
use vstd::prelude::*;
use vstd::utf8::encode_utf8;

use crate::text::{
    ascii_lower, copy_text, eq_ignoring_case, lowered, same_ignoring_case, text_option, trim,
    trimmed,
};

verus! {

/// Name and value pairs as texts.
pub open spec fn pair_texts(pairs: Seq<(String, String)>) -> Seq<(Seq<char>, Seq<char>)> {
    pairs.map_values(|pair: (String, String)| (pair.0@, pair.1@))
}

/// The pairs that `url::form_urlencoded::parse` reads from the bytes.
pub uninterp spec fn form_pairs(input: Seq<u8>) -> Seq<(Seq<char>, Seq<char>)>;

/// The text that `url::form_urlencoded::Serializer` writes for the pairs.
pub uninterp spec fn form_text(pairs: Seq<(Seq<char>, Seq<char>)>) -> Seq<char>;

/// `url::form_urlencoded::parse`, all pairs in order. They are a function of the bytes alone,
/// which `form_pairs` names.
#[verifier::external_body]
pub(crate) fn read_form(input: &[u8]) -> (r: Vec<(String, String)>)
    ensures
        pair_texts(r@) == form_pairs(input@),
{
    url::form_urlencoded::parse(input).into_owned().collect()
}

/// `url::form_urlencoded::Serializer::extend_pairs` on an empty string. The text is a function
/// of the pairs alone, which `form_text` names, and `url::form_urlencoded::parse` reads the same
/// pairs back from it.
#[verifier::external_body]
fn write_form(pairs: &Vec<(String, String)>) -> (r: String)
    ensures
        r@ == form_text(pair_texts(pairs@)),
        form_pairs(encode_utf8(r@)) == pair_texts(pairs@),
{
    url::form_urlencoded::Serializer::new(String::new()).extend_pairs(pairs.iter()).finish()
}

// ---------------------------------------------------------------------------
// The parent library of a request
// ---------------------------------------------------------------------------

/// Whether a pair gives the parent and its value is not blank.
pub open spec fn names_parent(pair: (Seq<char>, Seq<char>)) -> bool {
    same_ignoring_case(pair.0, "parentid"@) && trimmed(pair.1).len() > 0
}

/// The trimmed value of the first pair that gives a parent that is not blank.
pub open spec fn parent_id(pairs: Seq<(Seq<char>, Seq<char>)>) -> Option<Seq<char>>
    decreases pairs.len(),
{
    if pairs.len() == 0 {
        None
    } else if names_parent(pairs[0]) {
        Some(trimmed(pairs[0].1))
    } else {
        parent_id(pairs.drop_first())
    }
}

/// The trimmed value of the first pair that gives a parent that is not blank.
pub fn parent_id_from_pairs(pairs: &Vec<(String, String)>) -> (r: Option<String>)
    ensures
        text_option(r) == parent_id(pair_texts(pairs@)),
{
    let mut i: usize = 0;
    let ghost all = pair_texts(pairs@);
    assert(all.skip(0) == all);
    while i < pairs.len()
        invariant
            i <= pairs@.len(),
            all == pair_texts(pairs@),
            parent_id(all) == parent_id(all.skip(i as int)),
        decreases pairs@.len() - i,
    {
        assert(all.skip(i as int).drop_first() == all.skip(i + 1));
        if eq_ignoring_case(pairs[i].0.as_str(), "parentid") {
            let value: String = trim(pairs[i].1.as_str());
            if !value.as_str().is_empty() {
                return Some(value);
            }
        }
        i += 1;
    }
    None
}

/// The parent that a query names.
pub fn extract_parent_id_from_query(query: &str) -> (r: Option<String>)
    ensures
        text_option(r) == parent_id(form_pairs(encode_utf8(query@))),
{
    let pairs: Vec<(String, String)> = read_form(query.as_bytes());
    parent_id_from_pairs(&pairs)
}

// ---------------------------------------------------------------------------
// Another parent library
// ---------------------------------------------------------------------------

/// Whether a pair gives the parent.
pub open spec fn is_parent_pair(pair: (Seq<char>, Seq<char>)) -> bool {
    same_ignoring_case(pair.0, "parentid"@)
}

/// The pairs with every parent set to `id`; one is added at the end where there was none.
pub open spec fn with_parent(
    pairs: Seq<(Seq<char>, Seq<char>)>,
    id: Seq<char>,
) -> Seq<(Seq<char>, Seq<char>)> {
    if exists|i: int| 0 <= i < pairs.len() && is_parent_pair(#[trigger] pairs[i]) {
        pairs.map_values(
            |pair: (Seq<char>, Seq<char>)|
                if is_parent_pair(pair) {
                    (pair.0, id)
                } else {
                    pair
                },
        )
    } else {
        pairs.push(("ParentId"@, id))
    }
}

/// The pairs with every parent set to `id`; one is added at the end where there was none.
pub fn set_parent(pairs: Vec<(String, String)>, id: &str) -> (r: Vec<(String, String)>)
    ensures
        pair_texts(r@) == with_parent(pair_texts(pairs@), id@),
{
    let ghost all = pair_texts(pairs@);
    let ghost changed = |pair: (Seq<char>, Seq<char>)|
        if is_parent_pair(pair) {
            (pair.0, id@)
        } else {
            pair
        };
    let mut out: Vec<(String, String)> = Vec::new();
    let mut replaced: bool = false;
    let mut i: usize = 0;
    while i < pairs.len()
        invariant
            i <= pairs@.len(),
            all == pair_texts(pairs@),
            changed == |pair: (Seq<char>, Seq<char>)|
                if is_parent_pair(pair) {
                    (pair.0, id@)
                } else {
                    pair
                },
            pair_texts(out@) == all.map_values(changed).take(i as int),
            replaced == exists|k: int| 0 <= k < i && is_parent_pair(#[trigger] all[k]),
        decreases pairs@.len() - i,
    {
        let ghost before = out@;
        let ghost last: (String, String);
        if eq_ignoring_case(pairs[i].0.as_str(), "parentid") {
            let pair: (String, String) = (pairs[i].0.clone(), copy_text(id));
            proof {
                last = pair;
            }
            out.push(pair);
            replaced = true;
            assert(is_parent_pair(all[i as int]));
        } else {
            let pair: (String, String) = (pairs[i].0.clone(), pairs[i].1.clone());
            proof {
                last = pair;
            }
            out.push(pair);
            assert(!is_parent_pair(all[i as int]));
        }
        assert(pair_texts(out@) =~= pair_texts(before).push((last.0@, last.1@)));
        i += 1;
        assert(all.map_values(changed).take(i as int) =~= all.map_values(changed).take(i - 1).push(
            changed(all[i - 1]),
        ));
    }
    assert(all.map_values(changed).take(i as int) =~= all.map_values(changed));
    if !replaced {
        assert(all.map_values(changed) =~= all);
        let ghost before = out@;
        let pair: (String, String) = (copy_text("ParentId"), copy_text(id));
        let ghost last = pair;
        out.push(pair);
        assert(pair_texts(out@) =~= pair_texts(before).push((last.0@, last.1@)));
    }
    out
}

/// The query with every parent set to `id`. The query then names that parent, unless it is blank.
pub fn replace_parent_id_in_query(query: &str, id: &str) -> (r: String)
    ensures
        r@ == form_text(with_parent(form_pairs(encode_utf8(query@)), id@)),
        form_pairs(encode_utf8(r@)) == with_parent(form_pairs(encode_utf8(query@)), id@),
        trimmed(id@).len() > 0 ==> parent_id(form_pairs(encode_utf8(r@))) == Some(trimmed(id@)),
{
    let pairs: Vec<(String, String)> = read_form(query.as_bytes());
    let ghost before = pair_texts(pairs@);
    let changed: Vec<(String, String)> = set_parent(pairs, id);
    proof {
        if trimmed(id@).len() > 0 {
            a_parent_that_is_set_is_read_back(before, id@);
        }
    }
    write_form(&changed)
}

/// What is set as the parent is read back as the parent, without the whitespace around it.
pub proof fn a_parent_that_is_set_is_read_back(
    pairs: Seq<(Seq<char>, Seq<char>)>,
    id: Seq<char>,
)
    requires
        trimmed(id).len() > 0,
    ensures
        parent_id(with_parent(pairs, id)) == Some(trimmed(id)),
{
    let out = with_parent(pairs, id);
    lemma_parent_stands(pairs, id);
    assert forall|i: int| 0 <= i < out.len() && is_parent_pair(#[trigger] out[i]) implies out[i].1
        == id by {
        if i < pairs.len() && !is_parent_pair(pairs[i]) {
            assert(out[i] == pairs[i]);
        }
    }
    lemma_parent_is_found(out, id);
}

/// Setting the parent and then setting it again is setting it once, to the second: in the pairs,
/// and in a query `once` that holds what the first setting left.
pub proof fn setting_a_parent_twice_is_setting_it_once(
    query: Seq<char>,
    once: Seq<char>,
    first: Seq<char>,
    second: Seq<char>,
)
    requires
        form_pairs(encode_utf8(once)) == with_parent(form_pairs(encode_utf8(query)), first),
    ensures
        with_parent(with_parent(form_pairs(encode_utf8(query)), first), second) == with_parent(
            form_pairs(encode_utf8(query)),
            second,
        ),
        form_text(with_parent(form_pairs(encode_utf8(once)), second)) == form_text(
            with_parent(form_pairs(encode_utf8(query)), second),
        ),
{
    let pairs = form_pairs(encode_utf8(query));
    let out = with_parent(pairs, first);
    lemma_parent_stands(pairs, first);
    if exists|i: int| 0 <= i < pairs.len() && is_parent_pair(#[trigger] pairs[i]) {
        assert forall|i: int| 0 <= i < pairs.len() implies is_parent_pair(out[i])
            == is_parent_pair(#[trigger] pairs[i]) by {}
    } else {
        assert forall|i: int| 0 <= i < pairs.len() implies !is_parent_pair(out[i]) by {
            assert(out[i] == pairs[i]);
        }
    }
    assert(with_parent(out, second) =~= with_parent(pairs, second));
}

proof fn lemma_parent_stands(pairs: Seq<(Seq<char>, Seq<char>)>, id: Seq<char>)
    ensures
        exists|i: int|
            0 <= i < with_parent(pairs, id).len() && is_parent_pair(
                #[trigger] with_parent(pairs, id)[i],
            ),
        is_parent_pair(("ParentId"@, id)),
{
    let out = with_parent(pairs, id);
    reveal_strlit("ParentId");
    reveal_strlit("parentid");
    assert(lowered("ParentId"@) =~= lowered("parentid"@));
    if exists|i: int| 0 <= i < pairs.len() && is_parent_pair(#[trigger] pairs[i]) {
        let i = choose|i: int| 0 <= i < pairs.len() && is_parent_pair(#[trigger] pairs[i]);
        assert(is_parent_pair(out[i]));
    } else {
        assert(is_parent_pair(out[out.len() - 1]));
    }
}

proof fn lemma_parent_is_found(pairs: Seq<(Seq<char>, Seq<char>)>, id: Seq<char>)
    requires
        trimmed(id).len() > 0,
        exists|i: int| 0 <= i < pairs.len() && is_parent_pair(#[trigger] pairs[i]),
        forall|i: int|
            0 <= i < pairs.len() && is_parent_pair(#[trigger] pairs[i]) ==> pairs[i].1 == id,
    ensures
        parent_id(pairs) == Some(trimmed(id)),
    decreases pairs.len(),
{
    if !is_parent_pair(pairs[0]) {
        let i = choose|i: int| 0 <= i < pairs.len() && is_parent_pair(#[trigger] pairs[i]);
        let rest = pairs.drop_first();
        assert(rest[i - 1] == pairs[i]);
        assert forall|k: int| 0 <= k < rest.len() && is_parent_pair(#[trigger] rest[k]) implies rest[k].1
            == id by {
            assert(rest[k] == pairs[k + 1]);
        }
        lemma_parent_is_found(rest, id);
    }
}

// ---------------------------------------------------------------------------
// Any parameter
// ---------------------------------------------------------------------------

/// The trimmed value of the first pair named `name` in any letter case, unless it is blank.
pub open spec fn parameter(
    pairs: Seq<(Seq<char>, Seq<char>)>,
    name: Seq<char>,
) -> Option<Seq<char>>
    decreases pairs.len(),
{
    if pairs.len() == 0 {
        None
    } else if same_ignoring_case(pairs[0].0, name) {
        if trimmed(pairs[0].1).len() > 0 {
            Some(trimmed(pairs[0].1))
        } else {
            None
        }
    } else {
        parameter(pairs.drop_first(), name)
    }
}

/// The trimmed value of the first pair named `name` in any letter case, unless it is blank.
pub fn parameter_from_pairs(pairs: &Vec<(String, String)>, name: &str) -> (r: Option<String>)
    ensures
        text_option(r) == parameter(pair_texts(pairs@), name@),
{
    let mut i: usize = 0;
    let ghost all = pair_texts(pairs@);
    assert(all.skip(0) == all);
    while i < pairs.len()
        invariant
            i <= pairs@.len(),
            all == pair_texts(pairs@),
            parameter(all, name@) == parameter(all.skip(i as int), name@),
        decreases pairs@.len() - i,
    {
        assert(all.skip(i as int).drop_first() == all.skip(i + 1));
        if eq_ignoring_case(pairs[i].0.as_str(), name) {
            let value: String = trim(pairs[i].1.as_str());
            if value.as_str().is_empty() {
                return None;
            }
            return Some(value);
        }
        i += 1;
    }
    None
}

/// The value that a query gives to the parameter `parameter_name`.
pub fn extract_query_parameter(query: &str, parameter_name: &str) -> (r: Option<String>)
    ensures
        text_option(r) == parameter(form_pairs(encode_utf8(query@)), parameter_name@),
{
    let pairs: Vec<(String, String)> = read_form(query.as_bytes());
    parameter_from_pairs(&pairs, parameter_name)
}

// ---------------------------------------------------------------------------
// Constrained browsing
// ---------------------------------------------------------------------------

/// Whether the text holds only the letters `a` to `z`, and not more than a few of them.
pub open spec fn is_plain_word(word: Seq<char>) -> bool {
    &&& word.len() <= 64
    &&& forall|i: int| 0 <= i < word.len() ==> 'a' <= #[trigger] word[i] && word[i] <= 'z'
}

/// Whether `c` is the small letter `letter` in any case. Two letters have a third spelling:
/// the long s (U+017F) and the Kelvin sign (U+212A).
pub open spec fn is_letter(c: char, letter: char) -> bool {
    ||| ascii_lower(c) == letter
    ||| letter == 's' && c as u32 == 0x17f
    ||| letter == 'k' && c as u32 == 0x212a
}

/// Whether the word occurs in the text in any letter case.
pub open spec fn holds_word(text: Seq<char>, word: Seq<char>) -> bool {
    exists|from: int| #[trigger] word_at(text, word, from)
}

/// Whether the word stands in the text from position `from` on, in any letter case.
pub open spec fn word_at(text: Seq<char>, word: Seq<char>, from: int) -> bool {
    &&& 0 <= from <= text.len() - word.len()
    &&& forall|i: int| 0 <= i < word.len() ==> is_letter(text[from + i], #[trigger] word[i])
}

/// `regex::Regex::is_match` with the pattern of two words as alternatives, letter case ignored.
/// It matches where one of the words occurs in the text in any letter case. The words hold
/// small letters only, so the pattern is valid and far from the size limit of the crate.
#[verifier::external_body]
fn matches_either_word(text: &str, first: &str, second: &str) -> (r: bool)
    requires
        is_plain_word(first@),
        is_plain_word(second@),
    ensures
        r == (holds_word(text@, first@) || holds_word(text@, second@)),
{
    regex::Regex::new(&format!("(?i)({}|{})", first, second)).unwrap().is_match(text)
}

/// Whether a query speaks of a series or a parent, so that it is answered by one server.
pub open spec fn is_constrained(query: Seq<char>) -> bool {
    holds_word(query, "seriesid"@) || holds_word(query, "parentid"@)
}

/// Whether a query speaks of a series or a parent, so that it is answered by one server.
pub fn is_constrained_query(query: &str) -> (r: bool)
    ensures
        r == is_constrained(query@),
{
    proof {
        reveal_strlit("seriesid");
        reveal_strlit("parentid");
    }
    matches_either_word(query, "seriesid", "parentid")
}

// ---------------------------------------------------------------------------
// What is read from a query
// ---------------------------------------------------------------------------

/// The parent of a query is the value of the first pair that is called `parentid`, in any letter
/// case, and has more than white space for a value; there is none where no pair is such.
pub proof fn the_first_parent_that_is_not_blank_counts(pairs: Seq<(Seq<char>, Seq<char>)>) -> (i:
    int)
    ensures
        match parent_id(pairs) {
            Some(value) => {
                &&& 0 <= i < pairs.len()
                &&& value == trimmed(pairs[i].1)
                &&& value.len() > 0
                &&& lowered(pairs[i].0) == "parentid"@
                &&& forall|k: int|
                    0 <= k < i ==> lowered((#[trigger] pairs[k]).0) != "parentid"@ || trimmed(
                        pairs[k].1,
                    ).len() == 0
            },
            None => forall|k: int|
                0 <= k < pairs.len() ==> lowered((#[trigger] pairs[k]).0) != "parentid"@ || trimmed(
                    pairs[k].1,
                ).len() == 0,
        },
    decreases pairs.len(),
{
    lemma_parentid_is_small();
    if pairs.len() > 0 && !names_parent(pairs[0]) {
        let rest = pairs.drop_first();
        let i = the_first_parent_that_is_not_blank_counts(rest);
        let n = if parent_id(rest) is Some {
            i + 1
        } else {
            pairs.len() as int
        };
        assert forall|k: int| 0 <= k < n implies lowered((#[trigger] pairs[k]).0) != "parentid"@
            || trimmed(pairs[k].1).len() == 0 by {
            if k > 0 {
                assert(rest[k - 1] == pairs[k]);
            }
        }
        i + 1
    } else {
        0
    }
}

proof fn lemma_parentid_is_small()
    ensures
        lowered("parentid"@) == "parentid"@,
{
    reveal_strlit("parentid");
    assert(lowered("parentid"@) =~= "parentid"@);
}

/// The value of a parameter is that of the first pair with its name, in any letter case, without
/// the white space around it; there is none where that is blank, or where no pair has the name.
pub proof fn the_first_pair_with_the_name_counts(
    pairs: Seq<(Seq<char>, Seq<char>)>,
    name: Seq<char>,
) -> (i: int)
    ensures
        0 <= i <= pairs.len(),
        forall|k: int| 0 <= k < i ==> lowered((#[trigger] pairs[k]).0) != lowered(name),
        i < pairs.len() ==> lowered(pairs[i].0) == lowered(name),
        parameter(pairs, name) == if i < pairs.len() && trimmed(pairs[i].1).len() > 0 {
            Some(trimmed(pairs[i].1))
        } else {
            None
        },
    decreases pairs.len(),
{
    if pairs.len() > 0 && !same_ignoring_case(pairs[0].0, name) {
        let rest = pairs.drop_first();
        let i = the_first_pair_with_the_name_counts(rest, name);
        assert forall|k: int| 0 <= k < i + 1 implies lowered((#[trigger] pairs[k]).0) != lowered(
            name,
        ) by {
            if k > 0 {
                assert(rest[k - 1] == pairs[k]);
            }
        }
        if i < rest.len() {
            assert(rest[i] == pairs[i + 1]);
        }
        i + 1
    } else {
        0
    }
}

/// Setting the parent changes the value of every pair that is called `parentid`, in any letter
/// case, and no other pair; where there is none, one called `ParentId` is added behind all others.
pub proof fn setting_a_parent_changes_parents_only(
    pairs: Seq<(Seq<char>, Seq<char>)>,
    id: Seq<char>,
)
    ensures
        ({
            let out = with_parent(pairs, id);
            let given = exists|k: int|
                0 <= k < pairs.len() && lowered((#[trigger] pairs[k]).0) == "parentid"@;
            &&& out.len() == pairs.len() + if given {
                0int
            } else {
                1int
            }
            &&& !given ==> out.last() == ("ParentId"@, id)
            &&& forall|k: int|
                0 <= k < pairs.len() ==> {
                    &&& (#[trigger] out[k]).0 == pairs[k].0
                    &&& out[k].1 == if lowered(pairs[k].0) == "parentid"@ {
                        id
                    } else {
                        pairs[k].1
                    }
                }
        }),
{
    lemma_parentid_is_small();
    let out = with_parent(pairs, id);
    if exists|k: int| 0 <= k < pairs.len() && lowered((#[trigger] pairs[k]).0) == "parentid"@ {
        let k = choose|k: int|
            0 <= k < pairs.len() && lowered((#[trigger] pairs[k]).0) == "parentid"@;
        assert(is_parent_pair(pairs[k]));
    }
    if exists|k: int| 0 <= k < pairs.len() && is_parent_pair(#[trigger] pairs[k]) {
        let k = choose|k: int| 0 <= k < pairs.len() && is_parent_pair(#[trigger] pairs[k]);
        assert(lowered(pairs[k].0) == "parentid"@);
    } else {
        assert forall|k: int| 0 <= k < pairs.len() implies lowered((#[trigger] pairs[k]).0)
            != "parentid"@ by {
            assert(!is_parent_pair(pairs[k]));
        }
    }
}

/// A query that holds `seriesid` or `parentid` in any letter case, whatever stands around it, is
/// constrained. A query of ASCII characters that holds neither is not.
pub proof fn a_query_is_constrained_by_a_series_or_a_parent(
    before: Seq<char>,
    word: Seq<char>,
    after: Seq<char>,
    query: Seq<char>,
)
    requires
        lowered(word) == "seriesid"@ || lowered(word) == "parentid"@,
        forall|i: int| 0 <= i < query.len() ==> (#[trigger] query[i]) as u32 <= 127,
    ensures
        is_constrained(before + word + after),
        is_constrained(query) ==> exists|from: int|
            0 <= from <= query.len() - 8 && {
                let part = lowered(#[trigger] query.subrange(from, from + 8));
                part == "seriesid"@ || part == "parentid"@
            },
{
    reveal_strlit("seriesid");
    reveal_strlit("parentid");
    let text = before + word + after;
    let small = lowered(word);
    assert(word.len() == small.len());
    assert forall|i: int| 0 <= i < small.len() implies is_letter(
        text[before.len() + i],
        #[trigger] small[i],
    ) by {
        assert(text[before.len() + i] == word[i]);
        assert(small[i] == ascii_lower(word[i]));
    }
    assert(word_at(text, small, before.len() as int));
    if holds_word(query, "seriesid"@) {
        lemma_word_in_ascii(query, "seriesid"@);
    }
    if holds_word(query, "parentid"@) {
        lemma_word_in_ascii(query, "parentid"@);
    }
}

proof fn lemma_word_in_ascii(query: Seq<char>, word: Seq<char>)
    requires
        forall|i: int| 0 <= i < query.len() ==> (#[trigger] query[i]) as u32 <= 127,
        holds_word(query, word),
    ensures
        exists|from: int|
            0 <= from <= query.len() - word.len() && lowered(
                #[trigger] query.subrange(from, from + word.len()),
            ) == word,
{
    let from = choose|from: int| #[trigger] word_at(query, word, from);
    let part = query.subrange(from, from + word.len());
    assert forall|i: int| 0 <= i < word.len() implies lowered(part)[i] == word[i] by {
        assert(is_letter(query[from + i], word[i]));
        assert(query[from + i] as u32 <= 127);
    }
    assert(lowered(part) =~= word);
}

} // verus!
