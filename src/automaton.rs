use vstd::arithmetic::div_mod::{lemma_mod_self_0, lemma_small_mod};
use vstd::prelude::*;

use crate::pattern::{
    capture_count, compile, count_captures, input_space, is_input_space, items_of,
    lemma_captures_are_markers, lemma_space_insensitive, marker_count, parse_pattern,
    is_pattern_space, CondexError, Element, Item,
};

verus! {

/// A half-open offset range `[start, end)` into the scanned input.
#[derive(Debug, Clone, Copy, PartialEq, Eq, Structural)]
pub struct Span {
    pub start: usize,
    pub end: usize,
}

/// Awaiting a target that records nothing, or recording a capture that the
/// next accepted target closes.
#[derive(Debug, Clone, Copy, PartialEq, Eq, Structural)]
pub enum CondexState {
    Await,
    Record,
}

/// One compiled pattern with its live matching state.
#[derive(Debug)]
pub struct Condex {
    /// The pattern's targets, walked cyclically.
    pub elements: Vec<Element>,
    /// Index of the next target in `elements`.
    pub pos: usize,
    /// `Record` while a capture target is being compared, `Await` otherwise.
    pub current_state: CondexState,
    /// Offset just after the last accepted character: where a capture starts.
    pub prev_i: usize,
    /// Number of captures in one full match.
    pub result_len: usize,
    /// Captures of the match in progress.
    pub result: Vec<Span>,
    /// Completed capture groups, in the order they completed.
    pub results: Vec<Vec<Span>>,
}

pub open spec fn groups_of(v: Seq<Vec<Span>>) -> Seq<Seq<Span>> {
    v.map_values(|g: Vec<Span>| g@)
}

/// Whether the target `item` accepts the character `c`.
pub open spec fn accepts(item: Item, c: char) -> bool {
    item.1.contains(c)
}

/// Whether every pattern of `ps` compiles.
pub open spec fn patterns_parse(ps: Seq<&str>) -> bool {
    forall|j: int| 0 <= j < ps.len() ==> (#[trigger] parse_pattern(ps[j]@)) is Some
}

/// Whether `cs` are fresh automata compiled from `ps`, one for one.
pub open spec fn fresh_from(cs: Seq<Condex>, ps: Seq<&str>) -> bool {
    &&& cs.len() == ps.len()
    &&& forall|j: int| 0 <= j < ps.len() ==> (#[trigger] cs[j]).is_fresh(parse_pattern(ps[j]@)->0)
}

/// What one call of `test(c, i)` does, taking the automaton from `a` to `b`.
/// Input whitespace changes nothing. An accepted target advances the cursor
/// cyclically and, where it closes a capture, records `[prev_i, i)`; a full
/// set of captures becomes a new group. A rejected capture target keeps
/// recording. A rejected plain target abandons the attempt: the cursor goes
/// back to the first target and the pending captures are dropped.
pub open spec fn tested(a: Condex, b: Condex, c: char, i: usize) -> bool {
    let item = a.items()[a.pos as int];
    &&& b.elements@ == a.elements@
    &&& b.result_len == a.result_len
    &&& if is_input_space(c) || (!accepts(item, c) && item.0) {
        &&& b.pos == a.pos
        &&& b.prev_i == a.prev_i
        &&& b.result@ == a.result@
        &&& b.groups() == a.groups()
    } else if accepts(item, c) {
        let pending = if item.0 {
            a.result@.push(Span { start: a.prev_i, end: i })
        } else {
            a.result@
        };
        &&& b.pos == (a.pos + 1) % (a.elements@.len() as int)
        &&& b.prev_i == i + 1
        &&& if item.0 && pending.len() == a.result_len {
            b.result@.len() == 0 && b.groups() == a.groups().push(pending)
        } else {
            b.result@ == pending && b.groups() == a.groups()
        }
    } else {
        &&& b.pos == 0
        &&& b.prev_i == a.prev_i
        &&& b.result@.len() == 0
        &&& b.groups() == a.groups()
    }
}

/// A pattern without capture markers never completes a group: a fresh
/// automaton holds none, and no character fed to it adds one.
pub proof fn lemma_no_markers_no_groups(pattern: Seq<char>, a: Condex, b: Condex, c: char, i: usize)
    requires
        parse_pattern(pattern) == Some(a.items()),
        marker_count(pattern) == 0,
        a.wf(),
        a.groups().len() == 0,
        tested(a, b, c, i),
    ensures
        b.groups().len() == 0,
        b.items() == a.items(),
{
    lemma_captures_are_markers(pattern);
}

/// Every completed group holds exactly one span per capture marker of the
/// pattern the automaton was compiled from.
pub proof fn lemma_group_size(pattern: Seq<char>, con: Condex, k: int)
    requires
        parse_pattern(pattern) == Some(con.items()),
        con.wf(),
        0 <= k < con.groups().len(),
    ensures
        con.groups()[k].len() == marker_count(pattern),
{
    lemma_captures_are_markers(pattern);
    assert(con.groups()[k] == con.results@[k]@);
}

/// Whether `states` is a run of one automaton: `states[k + 1]` is what
/// `test(inputs[k].0, inputs[k].1)` makes of `states[k]`.
pub open spec fn is_run(states: Seq<Condex>, inputs: Seq<(char, usize)>) -> bool {
    &&& states.len() == inputs.len() + 1
    &&& forall|k: int|
        0 <= k < inputs.len() ==> (#[trigger] states[k]).wf() && tested(
            states[k],
            states[k + 1],
            inputs[k].0,
            inputs[k].1,
        )
}

proof fn lemma_run_without_markers_upto(
    pattern: Seq<char>,
    states: Seq<Condex>,
    inputs: Seq<(char, usize)>,
    n: int,
)
    requires
        is_run(states, inputs),
        parse_pattern(pattern) == Some(states[0].items()),
        marker_count(pattern) == 0,
        states[0].wf(),
        states[0].groups().len() == 0,
        0 <= n < states.len(),
    ensures
        states[n].groups().len() == 0,
        states[n].items() == states[0].items(),
    decreases n,
{
    if n > 0 {
        lemma_run_without_markers_upto(pattern, states, inputs, n - 1);
        let a = states[n - 1];
        assert(a.wf());
        lemma_no_markers_no_groups(pattern, a, states[n], inputs[n - 1].0, inputs[n - 1].1);
    }
}

/// Over any run of calls, a pattern without capture markers never
/// completes a group, so `finalize` gives nothing for it.
pub proof fn lemma_run_without_markers(
    pattern: Seq<char>,
    states: Seq<Condex>,
    inputs: Seq<(char, usize)>,
)
    requires
        is_run(states, inputs),
        parse_pattern(pattern) == Some(states[0].items()),
        marker_count(pattern) == 0,
        states[0].wf(),
        states[0].groups().len() == 0,
    ensures
        forall|k: int| 0 <= k < states.len() ==> (#[trigger] states[k]).groups().len() == 0,
{
    assert forall|k: int| 0 <= k < states.len() implies (#[trigger] states[k]).groups().len()
        == 0 by {
        lemma_run_without_markers_upto(pattern, states, inputs, k);
    }
}

/// Whether two automata agree on everything that `test` reads or reports.
pub open spec fn agree(a: Condex, b: Condex) -> bool {
    &&& a.items() == b.items()
    &&& a.pos == b.pos
    &&& a.prev_i == b.prev_i
    &&& a.result_len == b.result_len
    &&& a.result@ == b.result@
    &&& a.groups() == b.groups()
}

proof fn lemma_runs_agree_upto(
    s1: Seq<Condex>,
    s2: Seq<Condex>,
    inputs: Seq<(char, usize)>,
    n: int,
)
    requires
        is_run(s1, inputs),
        is_run(s2, inputs),
        agree(s1[0], s2[0]),
        0 <= n < s1.len(),
    ensures
        agree(s1[n], s2[n]),
    decreases n,
{
    if n > 0 {
        lemma_runs_agree_upto(s1, s2, inputs, n - 1);
        let (a1, a2) = (s1[n - 1], s2[n - 1]);
        assert(a1.wf() && a2.wf());
        assert(a1.items().len() == a1.elements@.len());
        assert(a2.items().len() == a2.elements@.len());
        assert(s1[n].items() == a1.items() && s2[n].items() == a2.items());
        assert(s1[n].result@ =~= s2[n].result@);
    }
}

/// Whitespace inserted anywhere in a pattern changes no match result: two
/// fresh automata, one for `pattern` and one for it with `w` inserted at
/// `idx`, fed the same characters, report the same groups at every step.
pub proof fn lemma_runs_space_insensitive(
    pattern: Seq<char>,
    idx: int,
    w: char,
    s1: Seq<Condex>,
    s2: Seq<Condex>,
    inputs: Seq<(char, usize)>,
)
    requires
        is_run(s1, inputs),
        is_run(s2, inputs),
        0 <= idx <= pattern.len(),
        is_pattern_space(w),
        parse_pattern(pattern) is Some,
        s1[0].is_fresh(parse_pattern(pattern)->0),
        s2[0].is_fresh(parse_pattern(pattern.insert(idx, w))->0),
    ensures
        forall|k: int| 0 <= k < s1.len() ==> (#[trigger] s1[k]).groups() == s2[k].groups(),
{
    lemma_space_insensitive(pattern, idx, w);
    assert(s1[0].result@ =~= s2[0].result@);
    assert(s1[0].groups() =~= s2[0].groups());
    assert(agree(s1[0], s2[0]));
    assert forall|k: int| 0 <= k < s1.len() implies (#[trigger] s1[k]).groups()
        == s2[k].groups() by {
        lemma_runs_agree_upto(s1, s2, inputs, k);
    }
}

/// A literal target accepts exactly its own character: no case folding.
pub proof fn lemma_literal_accepts(item: Item, t: char, c: char)
    requires
        item.1 == seq![t],
    ensures
        accepts(item, c) <==> c == t,
{
    if c == t {
        assert(item.1[0] == c);
    }
}

proof fn lemma_capture_counted(items: Seq<Item>, k: int)
    requires
        0 <= k < items.len(),
        items[k].0,
    ensures
        capture_count(items) >= 1,
    decreases items.len(),
{
    if k < items.len() - 1 {
        assert(items.drop_last()[k] == items[k]);
        lemma_capture_counted(items.drop_last(), k);
    }
}

fn class_contains(chars: &Vec<char>, c: char) -> (r: bool)
    ensures
        r == chars@.contains(c),
{
    let mut k: usize = 0;
    while k < chars.len()
        invariant
            k <= chars.len(),
            forall|j: int| 0 <= j < k ==> chars@[j] != c,
        decreases chars.len() - k,
    {
        if chars[k] == c {
            return true;
        }
        k = k + 1;
    }
    false
}

impl Condex {
    pub open spec fn items(&self) -> Seq<Item> {
        items_of(self.elements@)
    }

    pub open spec fn groups(&self) -> Seq<Seq<Span>> {
        groups_of(self.results@)
    }

    pub open spec fn wf(&self) -> bool {
        &&& self.elements@.len() > 0
        &&& self.pos < self.elements@.len()
        &&& self.result_len == capture_count(self.items())
        &&& self.current_state == CondexState::Await
        &&& self.result@.len() == 0 || self.result@.len() < self.result_len
        &&& forall|k: int| 0 <= k < self.results@.len() ==> #[trigger] self.results@[k]@.len() == self.result_len
    }

    /// A well-formed automaton for `items` that has seen no input.
    pub open spec fn is_fresh(&self, items: Seq<Item>) -> bool {
        &&& self.wf()
        &&& self.items() == items
        &&& self.pos == 0
        &&& self.prev_i == 0
        &&& self.result@.len() == 0
        &&& self.results@.len() == 0
    }

    /// Compiles one pattern into a fresh automaton.
    pub fn from_pattern(pattern: &str) -> (r: Result<Condex, CondexError>)
        ensures
            r is Ok <==> parse_pattern(pattern@) is Some,
            r is Ok ==> r->Ok_0.is_fresh(parse_pattern(pattern@)->0),
            r is Err ==> r->Err_0 == CondexError::MalformedPattern,
    {
        let elements = compile(pattern)?;
        let result_len = count_captures(&elements);
        Ok(Condex {
            elements,
            pos: 0,
            current_state: CondexState::Await,
            prev_i: 0,
            result_len,
            result: Vec::new(),
            results: Vec::new(),
        })
    }

    /// Compiles each pattern into a fresh automaton, in order.
    pub fn new(patterns: &[&str]) -> (r: Result<Vec<Condex>, CondexError>)
        ensures
            r is Ok <==> patterns_parse(patterns@),
            r is Ok ==> fresh_from(r->Ok_0@, patterns@),
            r is Err ==> r->Err_0 == CondexError::MalformedPattern,
    {
        let mut out: Vec<Condex> = Vec::new();
        let mut k: usize = 0;
        while k < patterns.len()
            invariant
                k <= patterns@.len(),
                out@.len() == k,
                forall|j: int| 0 <= j < k ==> (#[trigger] parse_pattern(patterns@[j]@)) is Some,
                forall|j: int|
                    0 <= j < k ==> (#[trigger] out@[j]).is_fresh(parse_pattern(patterns@[j]@)->0),
            decreases patterns@.len() - k,
        {
            match Condex::from_pattern(patterns[k]) {
                Ok(con) => out.push(con),
                Err(e) => {
                    return Err(e);
                },
            }
            k = k + 1;
        }
        Ok(out)
    }

    /// Feeds the input character `c`, found at offset `i`.
    pub fn test(&mut self, c: char, i: usize)
        requires
            old(self).wf(),
            i < usize::MAX,
        ensures
            final(self).wf(),
            tested(*old(self), *final(self), c, i),
    {
        if input_space(c) {
            return;
        }
        let ghost a = *self;
        let capture = self.elements[self.pos].capture;
        if capture {
            self.current_state = CondexState::Record;
        }
        let hit = class_contains(&self.elements[self.pos].chars, c);
        assert(a.items()[a.pos as int] == (capture, a.elements@[a.pos as int].chars@));
        if hit {
            if self.current_state == CondexState::Record {
                proof {
                    lemma_capture_counted(a.items(), a.pos as int);
                }
                self.result.push(Span { start: self.prev_i, end: i });
                if self.result.len() == self.result_len {
                    let mut group: Vec<Span> = Vec::new();
                    std::mem::swap(&mut group, &mut self.result);
                    let ghost before = self.results@;
                    self.results.push(group);
                    assert(groups_of(self.results@) =~= groups_of(before).push(group@));
                }
            }
            self.prev_i = i + 1;
            let n = self.elements.len();
            if self.pos + 1 == n {
                proof {
                    lemma_mod_self_0(n as int);
                }
                self.pos = 0;
            } else {
                proof {
                    lemma_small_mod((self.pos + 1) as nat, n as nat);
                }
                self.pos = self.pos + 1;
            }
        } else if !capture {
            self.pos = 0;
            self.result.clear();
        }
        self.current_state = CondexState::Await;
    }

    /// The recognizer's state between two calls of `test`.
    pub fn state(&self) -> (r: CondexState)
        requires
            self.wf(),
        ensures
            r == CondexState::Await,
    {
        self.current_state
    }
}

} // verus!
