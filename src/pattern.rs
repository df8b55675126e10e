use vstd::prelude::*;

verus! {

/// Unicode's White_Space property: U+0009 to U+000D, U+0020, U+0085, U+00A0,
/// U+1680, U+2000 to U+200A, U+2028, U+2029, U+202F, U+205F and U+3000.
pub open spec fn is_white_space(c: char) -> bool {
    let u = c as u32;
    (0x9 <= u <= 0xD) || u == 0x20 || u == 0x85 || u == 0xA0 || u == 0x1680 || (0x2000 <= u
        <= 0x200A) || u == 0x2028 || u == 0x2029 || u == 0x202F || u == 0x205F || u == 0x3000
}

/// Whitespace that a pattern may hold for readability: it carries no meaning.
pub open spec fn is_pattern_space(c: char) -> bool {
    is_white_space(c)
}

/// Whitespace of the scanned input: such characters are never compared.
pub open spec fn is_input_space(c: char) -> bool {
    is_white_space(c)
}

pub fn white_space(c: char) -> (r: bool)
    ensures
        r == is_white_space(c),
{
    let u = c as u32;
    (0x9 <= u && u <= 0xD) || u == 0x20 || u == 0x85 || u == 0xA0 || u == 0x1680 || (0x2000 <= u
        && u <= 0x200A) || u == 0x2028 || u == 0x2029 || u == 0x202F || u == 0x205F || u == 0x3000
}

pub fn pattern_space(c: char) -> (r: bool)
    ensures
        r == is_pattern_space(c),
{
    white_space(c)
}

pub fn input_space(c: char) -> (r: bool)
    ensures
        r == is_input_space(c),
{
    white_space(c)
}

/// Why a pattern could not be compiled, or a span could not be read back.
#[derive(Debug, Clone, Copy, PartialEq, Eq, Structural)]
pub enum CondexError {
    /// An unterminated or empty `[...]` group, a capture marker with no
    /// target after it, or a pattern without any target.
    MalformedPattern,
    /// A span does not lie on character boundaries of the text it is read from.
    OffsetResolution,
}

/// One target of a compiled pattern: any character of `chars` satisfies it.
/// `capture` is set when a capture marker stands before the target.
#[derive(Debug)]
pub struct Element {
    pub capture: bool,
    pub chars: Vec<char>,
}

/// A target as a mathematical value: the capture flag and the accepted characters.
pub type Item = (bool, Seq<char>);

pub open spec fn item_of(e: Element) -> Item {
    (e.capture, e.chars@)
}

pub open spec fn items_of(v: Seq<Element>) -> Seq<Item> {
    v.map_values(|e: Element| item_of(e))
}

/// Reads the pattern `s` from index `i` on. `capture` says that a marker is
/// pending, `class` holds the characters gathered since an open `[`, and
/// `out` the targets read so far.
pub open spec fn parse_from(
    s: Seq<char>,
    i: int,
    capture: bool,
    class: Option<Seq<char>>,
    out: Seq<Item>,
) -> Option<Seq<Item>>
    decreases s.len() - i,
{
    if i >= s.len() {
        if capture || class is Some || out.len() == 0 {
            None
        } else {
            Some(out)
        }
    } else if class is Some {
        if s[i] == ']' {
            if class->0.len() == 0 {
                None
            } else {
                parse_from(s, i + 1, false, None, out.push((capture, class->0)))
            }
        } else if is_pattern_space(s[i]) {
            parse_from(s, i + 1, capture, class, out)
        } else {
            parse_from(s, i + 1, capture, Some(class->0.push(s[i])), out)
        }
    } else if is_pattern_space(s[i]) {
        parse_from(s, i + 1, capture, None, out)
    } else if s[i] == '-' {
        if capture {
            None
        } else {
            parse_from(s, i + 1, true, None, out)
        }
    } else if s[i] == '[' {
        parse_from(s, i + 1, capture, Some(Seq::empty()), out)
    } else {
        parse_from(s, i + 1, false, None, out.push((capture, seq![s[i]])))
    }
}

/// The targets of a pattern, or `None` where the pattern is malformed.
pub open spec fn parse_pattern(s: Seq<char>) -> Option<Seq<Item>> {
    parse_from(s, 0, false, None, Seq::empty())
}

proof fn lemma_parse_shifted(
    s: Seq<char>,
    idx: int,
    w: char,
    j: int,
    capture: bool,
    class: Option<Seq<char>>,
    out: Seq<Item>,
)
    requires
        0 <= idx <= j,
        idx <= s.len(),
    ensures
        parse_from(s.insert(idx, w), j + 1, capture, class, out) == parse_from(
            s,
            j,
            capture,
            class,
            out,
        ),
    decreases s.len() - j,
{
    let t = s.insert(idx, w);
    if j < s.len() {
        assert(t[j + 1] == s[j]);
        if class is Some {
            if s[j] == ']' {
                lemma_parse_shifted(s, idx, w, j + 1, false, None, out.push((capture, class->0)));
            } else if is_pattern_space(s[j]) {
                lemma_parse_shifted(s, idx, w, j + 1, capture, class, out);
            } else {
                lemma_parse_shifted(s, idx, w, j + 1, capture, Some(class->0.push(s[j])), out);
            }
        } else if is_pattern_space(s[j]) {
            lemma_parse_shifted(s, idx, w, j + 1, capture, None, out);
        } else if s[j] == '-' {
            lemma_parse_shifted(s, idx, w, j + 1, true, None, out);
        } else if s[j] == '[' {
            lemma_parse_shifted(s, idx, w, j + 1, capture, Some(Seq::empty()), out);
        } else {
            lemma_parse_shifted(s, idx, w, j + 1, false, None, out.push((capture, seq![s[j]])));
        }
    }
}

proof fn lemma_parse_prefix(
    s: Seq<char>,
    idx: int,
    w: char,
    i: int,
    capture: bool,
    class: Option<Seq<char>>,
    out: Seq<Item>,
)
    requires
        0 <= i <= idx <= s.len(),
        is_pattern_space(w),
    ensures
        parse_from(s.insert(idx, w), i, capture, class, out) == parse_from(
            s,
            i,
            capture,
            class,
            out,
        ),
    decreases idx - i,
{
    let t = s.insert(idx, w);
    if i == idx {
        assert(t[i] == w);
        lemma_parse_shifted(s, idx, w, i, capture, class, out);
    } else {
        assert(t[i] == s[i]);
        if class is Some {
            if s[i] == ']' {
                lemma_parse_prefix(s, idx, w, i + 1, false, None, out.push((capture, class->0)));
            } else if is_pattern_space(s[i]) {
                lemma_parse_prefix(s, idx, w, i + 1, capture, class, out);
            } else {
                lemma_parse_prefix(s, idx, w, i + 1, capture, Some(class->0.push(s[i])), out);
            }
        } else if is_pattern_space(s[i]) {
            lemma_parse_prefix(s, idx, w, i + 1, capture, None, out);
        } else if s[i] == '-' {
            lemma_parse_prefix(s, idx, w, i + 1, true, None, out);
        } else if s[i] == '[' {
            lemma_parse_prefix(s, idx, w, i + 1, capture, Some(Seq::empty()), out);
        } else {
            lemma_parse_prefix(s, idx, w, i + 1, false, None, out.push((capture, seq![s[i]])));
        }
    }
}

/// Whitespace inserted anywhere in a pattern leaves its compiled targets,
/// and so every match result, unchanged.
pub proof fn lemma_space_insensitive(s: Seq<char>, idx: int, w: char)
    requires
        0 <= idx <= s.len(),
        is_pattern_space(w),
    ensures
        parse_pattern(s.insert(idx, w)) == parse_pattern(s),
{
    lemma_parse_prefix(s, idx, w, 0, false, None, Seq::empty());
}

/// How many targets carry a capture marker.
pub open spec fn capture_count(items: Seq<Item>) -> nat
    decreases items.len(),
{
    if items.len() == 0 {
        0
    } else {
        capture_count(items.drop_last()) + if items.last().0 {
            1nat
        } else {
            0nat
        }
    }
}

/// The capture markers of `s` from index `i` on: the `-` characters that
/// stand outside `[...]` groups. `in_class` says that a `[` is open at `i`.
pub open spec fn markers_from(s: Seq<char>, i: int, in_class: bool) -> nat
    decreases s.len() - i,
{
    if i >= s.len() {
        0
    } else if in_class {
        markers_from(s, i + 1, s[i] != ']')
    } else if s[i] == '-' {
        markers_from(s, i + 1, false) + 1
    } else {
        markers_from(s, i + 1, s[i] == '[')
    }
}

/// The number of capture markers in the pattern `s`.
pub open spec fn marker_count(s: Seq<char>) -> nat {
    markers_from(s, 0, false)
}

proof fn lemma_capture_count_push(out: Seq<Item>, x: Item)
    ensures
        capture_count(out.push(x)) == capture_count(out) + if x.0 {
            1nat
        } else {
            0nat
        },
{
    assert(out.push(x).drop_last() =~= out);
}

proof fn lemma_markers_from(
    s: Seq<char>,
    i: int,
    capture: bool,
    class: Option<Seq<char>>,
    out: Seq<Item>,
)
    requires
        0 <= i,
        parse_from(s, i, capture, class, out) is Some,
    ensures
        capture_count(parse_from(s, i, capture, class, out)->0) == capture_count(out) + (if capture {
            1nat
        } else {
            0nat
        }) + markers_from(s, i, class is Some),
    decreases s.len() - i,
{
    if i < s.len() {
        if class is Some {
            if s[i] == ']' {
                lemma_capture_count_push(out, (capture, class->0));
                lemma_markers_from(s, i + 1, false, None, out.push((capture, class->0)));
            } else if is_pattern_space(s[i]) {
                lemma_markers_from(s, i + 1, capture, class, out);
            } else {
                lemma_markers_from(s, i + 1, capture, Some(class->0.push(s[i])), out);
            }
        } else if is_pattern_space(s[i]) {
            lemma_markers_from(s, i + 1, capture, None, out);
        } else if s[i] == '-' {
            lemma_markers_from(s, i + 1, true, None, out);
        } else if s[i] == '[' {
            lemma_markers_from(s, i + 1, capture, Some(Seq::empty()), out);
        } else {
            lemma_capture_count_push(out, (capture, seq![s[i]]));
            lemma_markers_from(s, i + 1, false, None, out.push((capture, seq![s[i]])));
        }
    }
}

/// A well-formed pattern has one capturing target per capture marker.
pub proof fn lemma_captures_are_markers(s: Seq<char>)
    requires
        parse_pattern(s) is Some,
    ensures
        capture_count(parse_pattern(s)->0) == marker_count(s),
{
    lemma_markers_from(s, 0, false, None, Seq::empty());
}

proof fn lemma_literals_from(s: Seq<char>, i: int, capture: bool, out: Seq<Item>)
    requires
        0 <= i,
        parse_from(s, i, capture, None, out) is Some,
        forall|j: int| 0 <= j < s.len() ==> s[j] != '[',
        forall|k: int| 0 <= k < out.len() ==> (#[trigger] out[k]).1.len() == 1,
    ensures
        forall|k: int|
            0 <= k < parse_from(s, i, capture, None, out)->0.len() ==> (#[trigger] parse_from(
                s,
                i,
                capture,
                None,
                out,
            )->0[k]).1.len() == 1,
    decreases s.len() - i,
{
    if i < s.len() {
        if is_pattern_space(s[i]) {
            lemma_literals_from(s, i + 1, capture, out);
        } else if s[i] == '-' {
            lemma_literals_from(s, i + 1, true, out);
        } else {
            let next = out.push((capture, seq![s[i]]));
            assert forall|k: int| 0 <= k < next.len() implies (#[trigger] next[k]).1.len() == 1 by {
                if k < out.len() {
                    assert(next[k] == out[k]);
                }
            }
            lemma_literals_from(s, i + 1, false, next);
        }
    }
}

/// Without `[...]` groups every target of a pattern is one literal
/// character, which accepts that character and no other.
pub proof fn lemma_literal_targets(s: Seq<char>)
    requires
        parse_pattern(s) is Some,
        forall|j: int| 0 <= j < s.len() ==> s[j] != '[',
    ensures
        forall|k: int, c: char|
            0 <= k < parse_pattern(s)->0.len() ==> (#[trigger] parse_pattern(s)->0[k].1.contains(c)
                <==> c == parse_pattern(s)->0[k].1[0]),
{
    lemma_literals_from(s, 0, false, Seq::empty());
    let r = parse_pattern(s)->0;
    assert forall|k: int, c: char| 0 <= k < r.len() implies (#[trigger] r[k].1.contains(c)
        <==> c == r[k].1[0]) by {
        assert(r[k].1.len() == 1);
        if r[k].1.contains(c) {
            let j = choose|j: int| 0 <= j < r[k].1.len() && r[k].1[j] == c;
            assert(j == 0);
        }
    }
}

fn chars_of(s: &str) -> (r: Vec<char>)
    ensures
        r@ == s@,
{
    let mut v: Vec<char> = Vec::new();
    for c in it: s.chars()
        invariant
            v@ == it.history(),
    {
        v.push(c);
    }
    v
}

/// Compiles a pattern into its targets.
pub fn compile(pattern: &str) -> (r: Result<Vec<Element>, CondexError>)
    ensures
        r is Ok <==> parse_pattern(pattern@) is Some,
        r is Ok ==> parse_pattern(pattern@) == Some(items_of(r->Ok_0@)),
        r is Ok ==> r->Ok_0@.len() > 0,
        r is Err ==> r->Err_0 == CondexError::MalformedPattern,
{
    let cs = chars_of(pattern);
    let mut out: Vec<Element> = Vec::new();
    let mut capture = false;
    let mut in_class = false;
    let mut acc: Vec<char> = Vec::new();
    let mut i: usize = 0;
    assert(items_of(out@) =~= Seq::<Item>::empty());
    while i < cs.len()
        invariant
            i <= cs.len(),
            cs@ == pattern@,
            parse_pattern(cs@) == parse_from(
                cs@,
                i as int,
                capture,
                if in_class {
                    Some(acc@)
                } else {
                    None
                },
                items_of(out@),
            ),
        decreases cs.len() - i,
    {
        let c = cs[i];
        if in_class {
            if c == ']' {
                if acc.len() == 0 {
                    return Err(CondexError::MalformedPattern);
                }
                let chars = acc;
                acc = Vec::new();
                let ghost before = out@;
                out.push(Element { capture, chars });
                assert(items_of(out@) =~= items_of(before).push((capture, chars@)));
                capture = false;
                in_class = false;
            } else if !pattern_space(c) {
                acc.push(c);
            }
        } else if pattern_space(c) {
        } else if c == '-' {
            if capture {
                return Err(CondexError::MalformedPattern);
            }
            capture = true;
        } else if c == '[' {
            acc = Vec::new();
            in_class = true;
        } else {
            let ghost before = out@;
            let chars = vec![c];
            assert(chars@ =~= seq![c]);
            out.push(Element { capture, chars });
            assert(items_of(out@) =~= items_of(before).push((capture, seq![c])));
            capture = false;
        }
        i = i + 1;
    }
    if capture || in_class || out.len() == 0 {
        return Err(CondexError::MalformedPattern);
    }
    Ok(out)
}

/// Counts the targets that carry a capture marker.
pub fn count_captures(v: &Vec<Element>) -> (n: usize)
    ensures
        n == capture_count(items_of(v@)),
{
    let mut n: usize = 0;
    let mut k: usize = 0;
    while k < v.len()
        invariant
            k <= v.len(),
            n <= k,
            n == capture_count(items_of(v@).subrange(0, k as int)),
        decreases v.len() - k,
    {
        assert(items_of(v@).subrange(0, k as int + 1).drop_last() =~= items_of(v@).subrange(
            0,
            k as int,
        ));
        if v[k].capture {
            n = n + 1;
        }
        k = k + 1;
    }
    assert(items_of(v@).subrange(0, v@.len() as int) =~= items_of(v@));
    n
}

} // verus!
