//! Display labels: the name a location is shown under and the label of a
//! weather condition.

use crate::strings::{chars_of, is_white_space, upper_of, uppercase};
use vstd::prelude::*;

verus! {

/// Position of the first comma, or the length where there is none.
pub open spec fn first_comma(s: Seq<char>) -> int
    decreases s.len(),
{
    if s.len() == 0 || s[0] == ',' {
        0
    } else {
        1 + first_comma(s.drop_first())
    }
}

/// The sequence without its leading white space.
pub open spec fn trim_start(s: Seq<char>) -> Seq<char>
    decreases s.len(),
{
    if s.len() > 0 && is_white_space(s[0]) {
        trim_start(s.drop_first())
    } else {
        s
    }
}

/// The sequence without its trailing white space.
pub open spec fn trim_end(s: Seq<char>) -> Seq<char>
    decreases s.len(),
{
    if s.len() > 0 && is_white_space(s.last()) {
        trim_end(s.drop_last())
    } else {
        s
    }
}

/// The sequence without leading and trailing white space.
pub open spec fn trimmed(s: Seq<char>) -> Seq<char> {
    trim_end(trim_start(s))
}

/// The display label of a location query: what stands before the first
/// comma, without surrounding white space.
pub open spec fn query_label(query: Seq<char>) -> Seq<char> {
    trimmed(query.take(first_comma(query)))
}

/// A description with its first character replaced by `initial`.
pub open spec fn with_initial_text(initial: Seq<char>, description: Seq<char>) -> Seq<char> {
    if description.len() == 0 {
        initial
    } else {
        initial + description.skip(1)
    }
}

/// A description with its first character in upper case and the rest as it
/// was; the empty description stays empty.
pub open spec fn title_text(description: Seq<char>) -> Seq<char> {
    if description.len() == 0 {
        description
    } else {
        with_initial_text(upper_of(description[0]), description)
    }
}

/// The label shown where a sample carries no description.
pub open spec fn unknown_label() -> Seq<char> {
    seq!['U', 'n', 'k', 'n', 'o', 'w', 'n']
}

/// The condition label of a sample: the title form of its first description,
/// or the unknown label where it has none.
pub open spec fn condition_text(descriptions: Seq<String>) -> Seq<char> {
    if descriptions.len() == 0 {
        unknown_label()
    } else {
        title_text(descriptions[0]@)
    }
}

proof fn lemma_first_comma(s: Seq<char>, p: int)
    requires
        0 <= p <= s.len(),
        forall|j: int| 0 <= j < p ==> s[j] != ',',
        p < s.len() ==> s[p] == ',',
    ensures
        first_comma(s) == p,
    decreases s.len(),
{
    if p > 0 {
        lemma_first_comma(s.drop_first(), p - 1);
    }
}

proof fn lemma_trim_start(s: Seq<char>, a: int)
    requires
        0 <= a <= s.len(),
        forall|j: int| 0 <= j < a ==> is_white_space(s[j]),
        a < s.len() ==> !is_white_space(s[a]),
    ensures
        trim_start(s) == s.skip(a),
    decreases s.len(),
{
    if a > 0 {
        lemma_trim_start(s.drop_first(), a - 1);
    }
}

proof fn lemma_trim_end(s: Seq<char>, b: int)
    requires
        0 <= b <= s.len(),
        forall|j: int| b <= j < s.len() ==> is_white_space(s[j]),
        b > 0 ==> !is_white_space(s[b - 1]),
    ensures
        trim_end(s) == s.take(b),
    decreases s.len(),
{
    if b < s.len() {
        lemma_trim_end(s.drop_last(), b);
    }
}

/// Whether `from..to` is what remains of the positions once the marked ones
/// at both ends are left off. Where every position is marked, what remains
/// is the empty span at the end.
pub open spec fn is_inner_span(marked: Seq<bool>, from: int, to: int) -> bool {
    &&& 0 <= from <= to <= marked.len()
    &&& forall|j: int| 0 <= j < from ==> marked[j]
    &&& forall|j: int| to <= j < marked.len() ==> marked[j]
    &&& from < to ==> !marked[from] && !marked[to - 1]
    &&& from == to ==> from == marked.len()
}

/// For each character, whether it is white space.
pub open spec fn white_marks(s: Seq<char>) -> Seq<bool> {
    s.map_values(|c: char| is_white_space(c))
}

/// Leaving off the white space at both ends is leaving off the marked
/// positions at both ends, where the marks say which characters are white.
pub proof fn lemma_trimmed_is_inner_span(s: Seq<char>, from: int, to: int)
    requires
        is_inner_span(white_marks(s), from, to),
    ensures
        trimmed(s) == s.subrange(from, to),
{
    let marks = white_marks(s);
    assert forall|j: int| 0 <= j < from implies is_white_space(s[j]) by {
        assert(marks[j]);
    }
    lemma_trim_start(s, from);
    let rest = s.skip(from);
    assert forall|j: int| to - from <= j < rest.len() implies is_white_space(rest[j]) by {
        assert(marks[j + from]);
    }
    lemma_trim_end(rest, to - from);
}

/// The span that remains of the positions once the marked ones at both ends
/// are left off. This is the step of `trim` that follows the test of each
/// character for white space.
pub fn inner_span(marked: &Vec<bool>) -> (span: (usize, usize))
    ensures
        is_inner_span(marked@, span.0 as int, span.1 as int),
{
    let mut from: usize = 0;
    while from < marked.len() && marked[from]
        invariant
            from <= marked.len(),
            forall|j: int| 0 <= j < from ==> marked@[j],
        decreases marked.len() - from,
    {
        from += 1;
    }
    let mut to: usize = marked.len();
    while to > from && marked[to - 1]
        invariant
            from <= to <= marked.len(),
            forall|j: int| to <= j < marked.len() ==> marked@[j],
        decreases to,
    {
        to -= 1;
    }
    (from, to)
}

/// For each of the first `count` characters, whether it is white space.
fn white_marks_of(chars: &Vec<char>, count: usize) -> (marks: Vec<bool>)
    requires
        count <= chars.len(),
    ensures
        marks@ == white_marks(chars@.take(count as int)),
{
    let mut marks: Vec<bool> = Vec::new();
    let mut i: usize = 0;
    while i < count
        invariant
            i <= count <= chars.len(),
            marks.len() == i,
            forall|j: int| 0 <= j < i ==> marks@[j] == is_white_space(chars@[j]),
        decreases count - i,
    {
        marks.push(chars[i].is_whitespace());
        i += 1;
    }
    marks
}

/// The slice without leading and trailing white space.
pub fn trim<'a>(s: &'a str) -> (inner: &'a str)
    ensures
        inner@ == trimmed(s@),
{
    let chars = chars_of(s);
    let marks = white_marks_of(&chars, chars.len());
    let (from, to) = inner_span(&marks);
    proof {
        assert(chars@.take(chars.len() as int) =~= s@);
        lemma_trimmed_is_inner_span(s@, from as int, to as int);
    }
    s.substring_char(from, to)
}

/// The display label of a location query such as `"City,CountryCode"`: the
/// part before the first comma, without surrounding white space.
pub fn label_from_query<'a>(city: &'a str) -> (label: &'a str)
    ensures
        label@ == query_label(city@),
{
    let chars = chars_of(city);
    let mut comma: usize = 0;
    while comma < chars.len() && chars[comma] != ','
        invariant
            comma <= chars.len(),
            forall|j: int| 0 <= j < comma ==> chars@[j] != ',',
        decreases chars.len() - comma,
    {
        comma += 1;
    }
    let marks = white_marks_of(&chars, comma);
    let (from, to) = inner_span(&marks);
    proof {
        lemma_first_comma(chars@, comma as int);
        let name = city@.take(comma as int);
        lemma_trimmed_is_inner_span(name, from as int, to as int);
    }
    city.substring_char(from, to)
}

/// The description with `initial` in place of its first character. This is
/// the step of `title` that follows the upper-casing of that character.
pub fn with_initial(initial: String, description: &str) -> (label: String)
    ensures
        label@ == with_initial_text(initial@, description@),
{
    let n: usize = description.unicode_len();
    if n == 0 {
        initial
    } else {
        initial.concat(description.substring_char(1, n))
    }
}

/// The display form of a condition description: its first character in upper
/// case, the rest unchanged. The empty description stays empty.
pub fn title(s: &str) -> (label: String)
    ensures
        label@ == title_text(s@),
{
    if s.unicode_len() == 0 {
        String::new()
    } else {
        with_initial(uppercase(s.get_char(0)), s)
    }
}

/// The condition label of a sample: the title form of the first description,
/// or `"Unknown"` where the list is empty.
pub fn condition_label(descriptions: &Vec<String>) -> (label: String)
    ensures
        label@ == condition_text(descriptions@),
{
    if descriptions.len() == 0 {
        proof {
            reveal_strlit("Unknown");
        }
        String::from_str("Unknown")
    } else {
        title(descriptions[0].as_str())
    }
}

} // verus!
