use rayon::iter::IntoParallelRefIterator;
use rayon::iter::IntoParallelRefMutIterator;
use rayon::iter::ParallelIterator;
use vstd::prelude::*;
use vstd::string::StringSliceAdditionalSpecFns;
use vstd::utf8::{
    decode_utf8, encode_utf8_decode_utf8, encode_utf8_valid_utf8, is_char_boundary,
    is_char_boundary_iff_not_is_continuation_byte, is_char_boundary_start_end_of_seq,
};

use crate::automaton::{fresh_from, groups_of, patterns_parse, tested, Condex, Span};
use crate::pattern::{is_white_space, CondexError};

verus! {

/// A caller's tag for why a set of patterns is matched.
pub trait TokenKind: core::fmt::Debug + Copy + PartialEq + Send + Sync {

}

/// The completed groups of `cs[lo..hi]`, automaton after automaton.
pub open spec fn gather(cs: Seq<Condex>, lo: int, hi: int) -> Seq<Seq<Span>>
    decreases hi - lo,
{
    if hi <= lo {
        Seq::empty()
    } else {
        gather(cs, lo, hi - 1) + cs[hi - 1].groups()
    }
}

/// Whether the span lies on character boundaries of `source`, in order.
pub open spec fn span_ok(source: &str, sp: Span) -> bool {
    &&& sp.start <= sp.end
    &&& is_char_boundary(source.spec_bytes(), sp.start as int)
    &&& is_char_boundary(source.spec_bytes(), sp.end as int)
}

/// The text that a span covers in `source`, trimmed.
pub open spec fn span_text(source: &str, sp: Span) -> Seq<char> {
    trimmed(decode_utf8(source.spec_bytes().subrange(sp.start as int, sp.end as int)))
}

/// Whether every span of `g` lies on character boundaries of `source`.
pub open spec fn group_ok(source: &str, g: Seq<Span>) -> bool {
    forall|n: int| 0 <= n < g.len() ==> span_ok(source, #[trigger] g[n])
}

pub open spec fn texts_of(v: Seq<&str>) -> Seq<Seq<char>> {
    v.map_values(|s: &str| s@)
}

/// Whether `out` holds the trimmed text of each span of `g`, in order.
pub open spec fn resolved(source: &str, g: Seq<Span>, out: Seq<&str>) -> bool {
    &&& out.len() == g.len()
    &&& forall|n: int| 0 <= n < g.len() ==> (#[trigger] out[n])@ == span_text(source, g[n])
}

/// Whether every span of every group lies on character boundaries of `source`.
pub open spec fn groups_ok(source: &str, gs: Seq<Seq<Span>>) -> bool {
    forall|m: int| 0 <= m < gs.len() ==> group_ok(source, #[trigger] gs[m])
}

/// Whether `out` holds, group for group, the trimmed texts of the spans of `gs`.
pub open spec fn groups_resolved(source: &str, gs: Seq<Seq<Span>>, out: Seq<Vec<&str>>) -> bool {
    &&& out.len() == gs.len()
    &&& forall|m: int| 0 <= m < gs.len() ==> resolved(source, gs[m], (#[trigger] out[m])@)
}

/// Reading a group back is a pure read: two resolutions of the same group
/// from the same text give the same texts.
pub proof fn lemma_resolution_pure(source: &str, g: Seq<Span>, a: Seq<&str>, b: Seq<&str>)
    requires
        resolved(source, g, a),
        resolved(source, g, b),
    ensures
        texts_of(a) == texts_of(b),
{
    assert(texts_of(a) =~= texts_of(b));
}

/// The text without its leading run of whitespace.
pub open spec fn trim_start(s: Seq<char>) -> Seq<char>
    decreases s.len(),
{
    if s.len() > 0 && is_white_space(s[0]) {
        trim_start(s.drop_first())
    } else {
        s
    }
}

/// The text without its trailing run of whitespace.
pub open spec fn trim_end(s: Seq<char>) -> Seq<char>
    decreases s.len(),
{
    if s.len() > 0 && is_white_space(s.last()) {
        trim_end(s.drop_last())
    } else {
        s
    }
}

/// The text with leading and trailing whitespace removed.
pub open spec fn trimmed(s: Seq<char>) -> Seq<char> {
    trim_end(trim_start(s))
}

/// Relies on `str::trim`: the text with its leading and trailing characters
/// of Unicode's White_Space property removed.
#[verifier::external_body]
fn trim(s: &str) -> (r: &str)
    ensures
        r@ == trimmed(s@),
{
    s.trim()
}

/// The part of `s` between the byte offsets `start` and `end`: `Some`
/// exactly when `start <= end` and both lie on character boundaries of `s`.
fn byte_slice(s: &str, start: usize, end: usize) -> (r: Option<&str>)
    ensures
        r is Some <==> (start <= end && is_char_boundary(s.spec_bytes(), start as int)
            && is_char_boundary(s.spec_bytes(), end as int)),
        r is Some ==> r->0.spec_bytes() == s.spec_bytes().subrange(start as int, end as int),
{
    if start <= end && s.is_char_boundary(start) && s.is_char_boundary(end) {
        proof {
            encode_utf8_valid_utf8(s@);
        }
        let (head, _) = s.split_at(end);
        proof {
            let b = s.spec_bytes();
            let h = head.spec_bytes();
            encode_utf8_valid_utf8(head@);
            if start == end {
                is_char_boundary_start_end_of_seq(h);
            } else {
                is_char_boundary_iff_not_is_continuation_byte(b, start as int);
                is_char_boundary_iff_not_is_continuation_byte(h, start as int);
                assert(h[start as int] == b[start as int]);
            }
        }
        let (_, piece) = head.split_at(start);
        assert(piece.spec_bytes() =~= s.spec_bytes().subrange(start as int, end as int));
        Some(piece)
    } else {
        None
    }
}

/// Relies on rayon's `par_iter_mut` and `ParallelIterator::for_each`: the
/// closure, a call of `Condex::test`, runs exactly once on each element and
/// changes it in place; the automata share no state.
#[verifier::external_body]
fn test_all(cs: &mut Vec<Condex>, c: char, i: usize)
    requires
        forall|k: int| 0 <= k < old(cs)@.len() ==> (#[trigger] old(cs)@[k]).wf(),
        i < usize::MAX,
    ensures
        final(cs)@.len() == old(cs)@.len(),
        forall|k: int|
            0 <= k < old(cs)@.len() ==> (#[trigger] final(cs)@[k]).wf() && tested(
                old(cs)@[k],
                final(cs)@[k],
                c,
                i,
            ),
{
    cs.par_iter_mut().for_each(|con| con.test(c, i));
}

/// Relies on rayon's `par_iter`, `map` and `collect` into a `Result` of a
/// `Vec`: the closure, a call of `resolve_group`, runs once on each group;
/// the texts come back in the order of the groups when every call succeeds,
/// and otherwise an error that one of the calls returned.
#[verifier::external_body]
fn resolve_all<'a>(source: &'a str, groups: &Vec<Vec<Span>>) -> (r: Result<
    Vec<Vec<&'a str>>,
    CondexError,
>)
    ensures
        r is Ok <==> groups_ok(source, groups_of(groups@)),
        r is Ok ==> groups_resolved(source, groups_of(groups@), r->Ok_0@),
        r is Err ==> r->Err_0 == CondexError::OffsetResolution,
{
    groups.par_iter().map(|g| resolve_group(source, g)).collect()
}

/// Reads back the trimmed text of each span of a group.
pub fn resolve_group<'a>(source: &'a str, g: &Vec<Span>) -> (r: Result<Vec<&'a str>, CondexError>)
    ensures
        r is Ok <==> group_ok(source, g@),
        r is Ok ==> resolved(source, g@, r->Ok_0@),
        r is Err ==> r->Err_0 == CondexError::OffsetResolution,
{
    let mut out: Vec<&'a str> = Vec::new();
    let mut n: usize = 0;
    while n < g.len()
        invariant
            n <= g@.len(),
            out@.len() == n,
            forall|m: int| 0 <= m < n ==> span_ok(source, #[trigger] g@[m]),
            forall|m: int| 0 <= m < n ==> (#[trigger] out@[m])@ == span_text(source, g@[m]),
        decreases g@.len() - n,
    {
        let sp = g[n];
        match byte_slice(source, sp.start, sp.end) {
            Some(piece) => {
                proof {
                    encode_utf8_decode_utf8(piece@);
                }
                out.push(trim(piece));
            },
            None => {
                return Err(CondexError::OffsetResolution);
            },
        }
        n = n + 1;
    }
    Ok(out)
}

fn copy_group(g: &Vec<Span>) -> (r: Vec<Span>)
    ensures
        r@ == g@,
{
    let mut out: Vec<Span> = Vec::new();
    let mut n: usize = 0;
    while n < g.len()
        invariant
            n <= g@.len(),
            out@ == g@.subrange(0, n as int),
        decreases g@.len() - n,
    {
        out.push(g[n]);
        n = n + 1;
        assert(out@ =~= g@.subrange(0, n as int));
    }
    assert(g@.subrange(0, g@.len() as int) =~= g@);
    out
}

/// Automata for several categories of patterns, fed one input character at a time.
#[derive(Debug)]
pub struct CondexBuilder<T: TokenKind> {
    /// Each category with the range of its automata in `condexes`.
    pub kinds: Vec<(T, usize, usize)>,
    pub condexes: Vec<Condex>,
}

impl<T: TokenKind> CondexBuilder<T> {
    pub open spec fn wf(&self) -> bool {
        &&& forall|k: int|
            0 <= k < self.kinds@.len() ==> (#[trigger] self.kinds@[k]).1 <= self.kinds@[k].2
                <= self.condexes@.len()
        &&& forall|j: int| 0 <= j < self.condexes@.len() ==> (#[trigger] self.condexes@[j]).wf()
    }

    /// The completed groups of category `k`.
    pub open spec fn category_groups(&self, k: int) -> Seq<Seq<Span>> {
        gather(self.condexes@, self.kinds@[k].1 as int, self.kinds@[k].2 as int)
    }

    /// Whether this is a fresh matcher for the categories and patterns of `pairs`.
    pub open spec fn built_from(&self, pairs: Seq<(T, &[&str])>) -> bool {
        &&& self.wf()
        &&& self.kinds@.len() == pairs.len()
        &&& forall|k: int|
            0 <= k < pairs.len() ==> (#[trigger] self.kinds@[k]).0 == pairs[k].0 && fresh_from(
                self.condexes@.subrange(self.kinds@[k].1 as int, self.kinds@[k].2 as int),
                pairs[k].1@,
            )
    }

    /// Builds one automaton for each pattern of each category.
    pub fn new(condexes: &[(T, &[&str])]) -> (r: Result<Self, CondexError>)
        ensures
            r is Ok <==> forall|k: int|
                0 <= k < condexes@.len() ==> patterns_parse((#[trigger] condexes@[k]).1@),
            r is Ok ==> r->Ok_0.built_from(condexes@),
            r is Err ==> r->Err_0 == CondexError::MalformedPattern,
    {
        let mut kinds: Vec<(T, usize, usize)> = Vec::new();
        let mut all: Vec<Condex> = Vec::new();
        let mut k: usize = 0;
        while k < condexes.len()
            invariant
                k <= condexes@.len(),
                kinds@.len() == k,
                forall|j: int| 0 <= j < all@.len() ==> (#[trigger] all@[j]).wf(),
                forall|j: int| 0 <= j < k ==> patterns_parse((#[trigger] condexes@[j]).1@),
                forall|j: int|
                    0 <= j < k ==> (#[trigger] kinds@[j]).0 == condexes@[j].0 && kinds@[j].1
                        <= kinds@[j].2 <= all@.len() && fresh_from(
                        all@.subrange(kinds@[j].1 as int, kinds@[j].2 as int),
                        condexes@[j].1@,
                    ),
            decreases condexes@.len() - k,
        {
            let kind = condexes[k].0;
            let patterns = condexes[k].1;
            let mut cs = match Condex::new(patterns) {
                Ok(cs) => cs,
                Err(e) => {
                    return Err(e);
                },
            };
            let ghost before = all@;
            let ghost added = cs@;
            let lo = all.len();
            all.append(&mut cs);
            let hi = all.len();
            assert(all@.subrange(lo as int, hi as int) =~= added);
            assert forall|j: int| 0 <= j < k implies #[trigger] all@.subrange(
                kinds@[j].1 as int,
                kinds@[j].2 as int,
            ) == before.subrange(kinds@[j].1 as int, kinds@[j].2 as int) by {
                assert(all@.subrange(kinds@[j].1 as int, kinds@[j].2 as int) =~= before.subrange(
                    kinds@[j].1 as int,
                    kinds@[j].2 as int,
                ));
            }
            assert forall|j: int| 0 <= j < all@.len() implies (#[trigger] all@[j]).wf() by {
                if j >= lo {
                    assert(all@[j] == added[j - lo]);
                }
            }
            kinds.push((kind, lo, hi));
            k = k + 1;
        }
        Ok(CondexBuilder { kinds, condexes: all })
    }

    /// Feeds the input character `c`, found at offset `i`, to every automaton.
    pub fn test(&mut self, c: char, i: usize)
        requires
            old(self).wf(),
            i < usize::MAX,
        ensures
            final(self).wf(),
            final(self).kinds@ == old(self).kinds@,
            final(self).condexes@.len() == old(self).condexes@.len(),
            forall|j: int|
                0 <= j < old(self).condexes@.len() ==> tested(
                    #[trigger] old(self).condexes@[j],
                    final(self).condexes@[j],
                    c,
                    i,
                ),
    {
        test_all(&mut self.condexes, c, i);
    }

    /// The completed groups of every category, in the order of the categories.
    pub fn finalize(self) -> (r: Vec<(T, Vec<Vec<Span>>)>)
        requires
            self.wf(),
        ensures
            r@.len() == self.kinds@.len(),
            forall|k: int|
                0 <= k < self.kinds@.len() ==> (#[trigger] r@[k]).0 == self.kinds@[k].0
                    && groups_of(r@[k].1@) == self.category_groups(k),
    {
        let mut out: Vec<(T, Vec<Vec<Span>>)> = Vec::new();
        let mut k: usize = 0;
        while k < self.kinds.len()
            invariant
                self.wf(),
                k <= self.kinds@.len(),
                out@.len() == k,
                forall|j: int|
                    0 <= j < k ==> (#[trigger] out@[j]).0 == self.kinds@[j].0 && groups_of(
                        out@[j].1@,
                    ) == self.category_groups(j),
            decreases self.kinds@.len() - k,
        {
            let kind = self.kinds[k].0;
            let lo = self.kinds[k].1;
            let hi = self.kinds[k].2;
            let mut groups: Vec<Vec<Span>> = Vec::new();
            let mut j: usize = lo;
            while j < hi
                invariant
                    self.wf(),
                    k < self.kinds@.len(),
                    lo == self.kinds@[k as int].1,
                    hi == self.kinds@[k as int].2,
                    lo <= j <= hi,
                    groups_of(groups@) == gather(self.condexes@, lo as int, j as int),
                decreases hi - j,
            {
                let con = &self.condexes[j];
                let mut m: usize = 0;
                while m < con.results.len()
                    invariant
                        m <= con.results@.len(),
                        groups_of(groups@) == gather(self.condexes@, lo as int, j as int)
                            + con.groups().subrange(0, m as int),
                    decreases con.results@.len() - m,
                {
                    let g = copy_group(&con.results[m]);
                    let ghost before = groups@;
                    groups.push(g);
                    assert(groups_of(groups@) =~= groups_of(before).push(g@));
                    assert(con.groups().subrange(0, m as int + 1) =~= con.groups().subrange(
                        0,
                        m as int,
                    ).push(g@));
                    m = m + 1;
                }
                assert(con.groups().subrange(0, m as int) =~= con.groups());
                j = j + 1;
            }
            out.push((kind, groups));
            k = k + 1;
        }
        out
    }

    /// The completed groups of every category, each span read back from
    /// `source` as its trimmed text.
    pub fn finalize_with_source<'a>(self, source: &'a str) -> (r: Result<
        Vec<(T, Vec<Vec<&'a str>>)>,
        CondexError,
    >)
        requires
            self.wf(),
        ensures
            r is Ok <==> forall|k: int|
                0 <= k < self.kinds@.len() ==> groups_ok(source, #[trigger] self.category_groups(k)),
            r is Ok ==> r->Ok_0@.len() == self.kinds@.len() && forall|k: int|
                0 <= k < self.kinds@.len() ==> (#[trigger] r->Ok_0@[k]).0 == self.kinds@[k].0
                    && groups_resolved(source, self.category_groups(k), r->Ok_0@[k].1@),
            r is Err ==> r->Err_0 == CondexError::OffsetResolution,
    {
        let ghost me = self;
        let spans = self.finalize();
        let mut out: Vec<(T, Vec<Vec<&'a str>>)> = Vec::new();
        let mut k: usize = 0;
        while k < spans.len()
            invariant
                k <= spans@.len(),
                me == self,
                spans@.len() == me.kinds@.len(),
                forall|j: int|
                    0 <= j < me.kinds@.len() ==> (#[trigger] spans@[j]).0 == me.kinds@[j].0
                        && groups_of(spans@[j].1@) == me.category_groups(j),
                out@.len() == k,
                forall|j: int| 0 <= j < k ==> groups_ok(source, #[trigger] me.category_groups(j)),
                forall|j: int|
                    0 <= j < k ==> (#[trigger] out@[j]).0 == me.kinds@[j].0 && groups_resolved(
                        source,
                        me.category_groups(j),
                        out@[j].1@,
                    ),
            decreases spans@.len() - k,
        {
            let kind = spans[k].0;
            let groups = &spans[k].1;
            let texts = match resolve_all(source, groups) {
                Ok(texts) => texts,
                Err(e) => {
                    return Err(e);
                },
            };
            out.push((kind, texts));
            k = k + 1;
        }
        Ok(out)
    }
}

} // verus!
