//! The token stream: atom matching against the remaining input, skipping of
//! ignorable characters, and a lazily advancing one-token-lookahead cursor.
//! Every executable step is specified by a spec-level transition function
//! over the stream state, so a full parse is a mathematical function of the
//! grammar and the input.

use vstd::prelude::*;
use crate::model::{Atom, AtomV, Grammar, GrammarV, ParseOptions};
use crate::pattern::pattern_prefix_chars;

verus! {

// ---------------------------------------------------------------------------
// Spec: one scanned token and the stream state
// ---------------------------------------------------------------------------

/// The view of a token: its type, its raw text, and the character offset at
/// which it starts.
#[verifier::ext_equal]
pub struct LexemV {
    pub t: Seq<char>,
    pub raw: Seq<char>,
    pub pos: int,
}

/// The state of a token stream: the cursor (a character offset into the
/// input), whether scanning has failed, and the cached lookahead token, if
/// any. When a token is cached the cursor already stands after it.
#[verifier::ext_equal]
pub struct StreamV {
    pub cursor: int,
    pub failed: bool,
    pub peeked: Option<LexemV>,
}

/// The state of a stream that has read nothing yet.
pub open spec fn initial_stream() -> StreamV {
    StreamV { cursor: 0, failed: false, peeked: None }
}

/// A stream state is well-formed when its cursor lies inside the input.
pub open spec fn stream_wf(input: Seq<char>, s: StreamV) -> bool {
    0 <= s.cursor <= input.len()
}

/// A termination measure for the stream: never negative, it strictly
/// shrinks whenever a token is taken, and never grows under any stream
/// operation.
pub open spec fn smeasure(input: Seq<char>, s: StreamV) -> int {
    (if s.cursor <= input.len() {
        2 * (input.len() - s.cursor)
    } else {
        0int
    }) + (if s.peeked is Some {
        1int
    } else {
        0int
    })
}

// ---------------------------------------------------------------------------
// Spec: skipping and atom matching
// ---------------------------------------------------------------------------

/// Whether the options direct the stream to step over a character.
pub open spec fn is_ignorable(o: ParseOptions, c: char) -> bool {
    (c == ' ' && o.ignore_whitespace) || (c == '\n' && o.ignore_newline)
}

/// The first position at or after `i` that holds no ignorable character.
pub open spec fn spec_skip(o: ParseOptions, input: Seq<char>, i: int) -> int
    decreases input.len() - i,
{
    if 0 <= i < input.len() && is_ignorable(o, input[i]) {
        spec_skip(o, input, i + 1)
    } else {
        i
    }
}

/// The number of characters an atom matches at the start of the remaining
/// input, or `None`. A literal atom matches its own text as a prefix; a
/// pattern atom matches what the compiled pattern matches at the start.
pub open spec fn atom_match(a: AtomV, rem: Seq<char>) -> Option<int> {
    match a {
        AtomV::Simple { name } => if rem.len() >= name.len() && rem.subrange(
            0,
            name.len() as int,
        ) == name {
            Some(name.len() as int)
        } else {
            None
        },
        AtomV::Matched { pattern, .. } => match pattern_prefix_chars(pattern, rem) {
            // A prefix match never reaches past the remaining input; the
            // bound is made explicit here so that it holds by definition.
            Some(n) => Some(if n <= rem.len() {
                n as int
            } else {
                rem.len() as int
            }),
            None => None,
        },
    }
}

/// The first atom, at or after index `i` in declaration order, that matches
/// the remaining input, together with its match length.
pub open spec fn first_match_from(atoms: Seq<AtomV>, rem: Seq<char>, i: int) -> Option<(int, int)>
    decreases atoms.len() - i,
{
    if 0 <= i < atoms.len() {
        match atom_match(atoms[i], rem) {
            Some(l) => Some((i, l)),
            None => first_match_from(atoms, rem, i + 1),
        }
    } else {
        None
    }
}

/// The first atom in declaration order that matches the remaining input.
pub open spec fn first_match(atoms: Seq<AtomV>, rem: Seq<char>) -> Option<(int, int)> {
    first_match_from(atoms, rem, 0)
}

// ---------------------------------------------------------------------------
// Spec: the stream transitions
// ---------------------------------------------------------------------------

/// Taking one token from the stream: the cached token if one is there;
/// otherwise skip ignorable characters, stop at the end of the input, and
/// match the atoms at the cursor. A match of zero characters could make no
/// progress, so it is treated like unrecognized input rather than producing
/// an endless run of empty tokens.
pub open spec fn spec_shift(g: GrammarV, input: Seq<char>, s: StreamV) -> (StreamV, Option<
    LexemV,
>) {
    if s.peeked is Some {
        (StreamV { peeked: None, ..s }, s.peeked)
    } else if s.failed {
        (s, None)
    } else {
        let start = spec_skip(g.options, input, s.cursor);
        if start >= input.len() {
            (StreamV { cursor: start, ..s }, None)
        } else {
            let rem = input.subrange(start, input.len() as int);
            match first_match(g.atoms, rem) {
                Some((i, l)) => if l == 0 {
                    (StreamV { cursor: start, failed: true, peeked: None }, None)
                } else {
                    (
                        StreamV {
                            cursor: spec_skip(g.options, input, start + l),
                            failed: false,
                            peeked: None,
                        },
                        Some(LexemV { t: g.atoms[i].name(), raw: rem.subrange(0, l), pos: start }),
                    )
                },
                None => (StreamV { cursor: start, failed: true, peeked: None }, None),
            }
        }
    }
}

/// Looking at the next token without consuming it: the same scan as
/// `spec_shift`, with the token kept in the cache.
pub open spec fn spec_peek(g: GrammarV, input: Seq<char>, s: StreamV) -> (StreamV, Option<
    LexemV,
>) {
    if s.peeked is Some {
        (s, s.peeked)
    } else {
        let (s1, t) = spec_shift(g, input, s);
        (StreamV { peeked: t, ..s1 }, t)
    }
}

/// The whole sequence of tokens a stream yields from a state, each as its
/// type and raw text: what the input reads as, with positions left aside.
pub open spec fn spec_token_list(g: GrammarV, input: Seq<char>, s: StreamV) -> Seq<
    (Seq<char>, Seq<char>),
>
    decreases smeasure(input, s),
{
    let (s2, t) = spec_shift(g, input, s);
    match t {
        None => Seq::empty(),
        Some(l) => if smeasure(input, s2) < smeasure(input, s) {
            seq![(l.t, l.raw)] + spec_token_list(g, input, s2)
        } else {
            seq![(l.t, l.raw)]
        },
    }
}

// ---------------------------------------------------------------------------
// Lemmas about the transitions
// ---------------------------------------------------------------------------

/// Skipping moves the cursor forward and never past the end.
pub proof fn lemma_skip_bounds(o: ParseOptions, input: Seq<char>, i: int)
    requires
        0 <= i <= input.len(),
    ensures
        i <= spec_skip(o, input, i) <= input.len(),
    decreases input.len() - i,
{
    if i < input.len() && is_ignorable(o, input[i]) {
        lemma_skip_bounds(o, input, i + 1);
    }
}

/// Skipping rule idempotence: skipping from an already-skipped position
/// moves nothing.
pub proof fn lemma_skip_idempotent(o: ParseOptions, input: Seq<char>, i: int)
    ensures
        spec_skip(o, input, spec_skip(o, input, i)) == spec_skip(o, input, i),
    decreases input.len() - i,
{
    if 0 <= i < input.len() && is_ignorable(o, input[i]) {
        lemma_skip_idempotent(o, input, i + 1);
    }
}

/// A match length never exceeds the remaining input.
pub proof fn lemma_first_match_len(atoms: Seq<AtomV>, rem: Seq<char>, i: int)
    ensures
        first_match_from(atoms, rem, i) matches Some(p) ==> 0 <= p.1 <= rem.len() && 0 <= p.0
            < atoms.len(),
    decreases atoms.len() - i,
{
    if 0 <= i < atoms.len() {
        if atom_match(atoms[i], rem) is None {
            lemma_first_match_len(atoms, rem, i + 1);
        }
    }
}

/// Taking a token preserves well-formedness and shrinks the measure; when no
/// token comes back, the measure does not grow.
pub proof fn lemma_shift(g: GrammarV, input: Seq<char>, s: StreamV)
    requires
        stream_wf(input, s),
    ensures
        stream_wf(input, spec_shift(g, input, s).0),
        smeasure(input, spec_shift(g, input, s).0) <= smeasure(input, s),
        spec_shift(g, input, s).1 is Some ==> smeasure(input, spec_shift(g, input, s).0)
            < smeasure(input, s),
{
    if s.peeked is Some {
    } else if s.failed {
    } else {
        let start = spec_skip(g.options, input, s.cursor);
        lemma_skip_bounds(g.options, input, s.cursor);
        if start < input.len() {
            let rem = input.subrange(start, input.len() as int);
            lemma_first_match_len(g.atoms, rem, 0);
            match first_match(g.atoms, rem) {
                Some((i, l)) => {
                    if l != 0 {
                        lemma_skip_bounds(g.options, input, start + l);
                    }
                },
                None => {},
            }
        }
    }
}

/// Peeking preserves well-formedness and never grows the measure.
pub proof fn lemma_peek(g: GrammarV, input: Seq<char>, s: StreamV)
    requires
        stream_wf(input, s),
    ensures
        stream_wf(input, spec_peek(g, input, s).0),
        smeasure(input, spec_peek(g, input, s).0) <= smeasure(input, s),
        spec_peek(g, input, s).0.peeked == spec_peek(g, input, s).1,
{
    if s.peeked is Some {
    } else {
        lemma_shift(g, input, s);
    }
}

/// Two positions with the same remaining input are skipped alike: the
/// distance the cursor moves depends on the remaining characters alone.
pub proof fn lemma_skip_suffix(
    o: ParseOptions,
    u1: Seq<char>,
    c1: int,
    u2: Seq<char>,
    c2: int,
)
    requires
        0 <= c1 <= u1.len(),
        0 <= c2 <= u2.len(),
        u1.skip(c1) == u2.skip(c2),
    ensures
        spec_skip(o, u1, c1) - c1 == spec_skip(o, u2, c2) - c2,
    decreases u1.len() - c1,
{
    assert(u1.skip(c1).len() == u1.len() - c1);
    assert(u2.skip(c2).len() == u2.len() - c2);
    if c1 < u1.len() {
        assert(c2 < u2.len());
        assert(u1[c1] == u1.skip(c1)[0]);
        assert(u2[c2] == u2.skip(c2)[0]);
        if is_ignorable(o, u1[c1]) {
            assert(u1.skip(c1 + 1) =~= u2.skip(c2 + 1)) by {
                assert(u1.skip(c1 + 1) =~= u1.skip(c1).skip(1));
                assert(u2.skip(c2 + 1) =~= u2.skip(c2).skip(1));
            }
            lemma_skip_suffix(o, u1, c1 + 1, u2, c2 + 1);
        }
    }
}

/// Skip-rule locality: the sequence of tokens a stream yields, in type and
/// raw text, depends only on the input from the cursor on.
pub proof fn lemma_token_list_suffix(
    g: GrammarV,
    u1: Seq<char>,
    u2: Seq<char>,
    s1: StreamV,
    s2: StreamV,
)
    requires
        stream_wf(u1, s1),
        stream_wf(u2, s2),
        s1.peeked is None,
        s2.peeked is None,
        s1.failed == s2.failed,
        u1.skip(s1.cursor) == u2.skip(s2.cursor),
    ensures
        spec_token_list(g, u1, s1) == spec_token_list(g, u2, s2),
    decreases smeasure(u1, s1),
{
    assert(u1.skip(s1.cursor).len() == u1.len() - s1.cursor);
    assert(u2.skip(s2.cursor).len() == u2.len() - s2.cursor);
    assert(u1.len() - s1.cursor == u2.len() - s2.cursor);
    if !s1.failed {
        let q1 = spec_skip(g.options, u1, s1.cursor);
        let q2 = spec_skip(g.options, u2, s2.cursor);
        lemma_skip_suffix(g.options, u1, s1.cursor, u2, s2.cursor);
        lemma_skip_bounds(g.options, u1, s1.cursor);
        lemma_skip_bounds(g.options, u2, s2.cursor);
        if q1 < u1.len() {
            let rem1 = u1.subrange(q1, u1.len() as int);
            let rem2 = u2.subrange(q2, u2.len() as int);
            assert(rem1 =~= rem2) by {
                assert forall|k: int| 0 <= k < rem1.len() implies rem1[k] == rem2[k] by {
                    assert(rem1[k] == u1[q1 + k]);
                    assert(u1.skip(s1.cursor)[q1 - s1.cursor + k] == u1[q1 + k]);
                    assert(rem2[k] == u2[q2 + k]);
                    assert(u2.skip(s2.cursor)[q2 - s2.cursor + k] == u2[q2 + k]);
                }
            }
            lemma_first_match_len(g.atoms, rem1, 0);
            match first_match(g.atoms, rem1) {
                Some((i, l)) => {
                    if l != 0 {
                        let n1 = spec_skip(g.options, u1, q1 + l);
                        let n2 = spec_skip(g.options, u2, q2 + l);
                        assert(u1.skip(q1 + l) =~= u2.skip(q2 + l)) by {
                            assert forall|k: int| 0 <= k < u1.len() - q1 - l implies #[trigger] u1.skip(
                                q1 + l,
                            )[k] == u2.skip(q2 + l)[k] by {
                                assert(u1.skip(q1 + l)[k] == u1[q1 + l + k]);
                                assert(u1.skip(s1.cursor)[q1 - s1.cursor + l + k] == u1[q1 + l
                                    + k]);
                                assert(u2.skip(q2 + l)[k] == u2[q2 + l + k]);
                                assert(u2.skip(s2.cursor)[q2 - s2.cursor + l + k] == u2[q2 + l
                                    + k]);
                            }
                        }
                        lemma_skip_suffix(g.options, u1, q1 + l, u2, q2 + l);
                        lemma_skip_bounds(g.options, u1, q1 + l);
                        lemma_skip_bounds(g.options, u2, q2 + l);
                        let t1 = StreamV { cursor: n1, failed: false, peeked: None };
                        let t2 = StreamV { cursor: n2, failed: false, peeked: None };
                        assert(u1.skip(n1) =~= u2.skip(n2)) by {
                            assert forall|k: int| 0 <= k < u1.len() - n1 implies #[trigger] u1.skip(
                                n1,
                            )[k] == u2.skip(n2)[k] by {
                                assert(u1.skip(n1)[k] == u1[n1 + k]);
                                assert(u1.skip(s1.cursor)[n1 - s1.cursor + k] == u1[n1 + k]);
                                assert(u2.skip(n2)[k] == u2[n2 + k]);
                                assert(u2.skip(s2.cursor)[n2 - s2.cursor + k] == u2[n2 + k]);
                            }
                        }
                        lemma_token_list_suffix(g, u1, u2, t1, t2);
                    }
                },
                None => {},
            }
        }
    }
}

/// Skip-rule idempotence over whole streams: one more ignorable character
/// under the cursor changes no token — the stream reads the same types and
/// raw texts from the input with the character as without it.
pub proof fn lemma_extra_ignorable_ignored(
    g: GrammarV,
    input: Seq<char>,
    s: StreamV,
    c: char,
)
    requires
        stream_wf(input, s),
        s.peeked is None,
        is_ignorable(g.options, c),
    ensures
        spec_token_list(g, input.insert(s.cursor, c), s) == spec_token_list(g, input, s),
{
    let u2 = input.insert(s.cursor, c);
    let step = StreamV { cursor: s.cursor + 1, failed: s.failed, peeked: None };
    assert(u2[s.cursor] == c);
    assert(spec_skip(g.options, u2, s.cursor) == spec_skip(g.options, u2, s.cursor + 1));
    assert(spec_token_list(g, u2, s) == spec_token_list(g, u2, step)) by {
        if !s.failed {
            let (a2, t2) = spec_shift(g, u2, s);
            let (b2, r2) = spec_shift(g, u2, step);
            assert(a2 == b2 && t2 == r2);
            match t2 {
                Some(l) => {
                    lemma_shift(g, u2, step);
                    assert(smeasure(u2, a2) < smeasure(u2, step));
                    assert(smeasure(u2, a2) < smeasure(u2, s));
                },
                None => {},
            }
        }
    }
    assert(u2.skip(s.cursor + 1) =~= input.skip(s.cursor));
    lemma_token_list_suffix(g, u2, input, step, s);
}

/// Atom priority: when the atom at index `i` matches the remaining input,
/// the stream picks an atom no later than `i` in declaration order.
pub proof fn lemma_atom_priority(atoms: Seq<AtomV>, rem: Seq<char>, i: int)
    requires
        0 <= i < atoms.len(),
        atom_match(atoms[i], rem) is Some,
    ensures
        first_match(atoms, rem) matches Some(p) && p.0 <= i && atom_match(atoms[p.0], rem)
            == Some(p.1),
{
    lemma_atom_priority_from(atoms, rem, 0, i);
}

proof fn lemma_atom_priority_from(atoms: Seq<AtomV>, rem: Seq<char>, j: int, i: int)
    requires
        0 <= j <= i < atoms.len(),
        atom_match(atoms[i], rem) is Some,
    ensures
        first_match_from(atoms, rem, j) matches Some(p) && j <= p.0 <= i && atom_match(
            atoms[p.0],
            rem,
        ) == Some(p.1),
    decreases i - j,
{
    if atom_match(atoms[j], rem) is None {
        lemma_atom_priority_from(atoms, rem, j + 1, i);
    }
}

// ---------------------------------------------------------------------------
// Executable types
// ---------------------------------------------------------------------------

/// One scanned token: its type name, the raw text it matched, and the
/// character offset at which it starts.
#[derive(Debug)]
pub struct Lexem {
    pub t: String,
    pub raw: String,
    pub pos: usize,
}

impl View for Lexem {
    type V = LexemV;

    open spec fn view(&self) -> LexemV {
        LexemV { t: self.t@, raw: self.raw@, pos: self.pos as int }
    }
}

impl Clone for Lexem {
    fn clone(&self) -> (r: Lexem)
        ensures
            r == *self,
    {
        Lexem { t: self.t.clone(), raw: self.raw.clone(), pos: self.pos }
    }
}

/// The view of an optional token.
pub open spec fn opt_lexem_view(o: Option<Lexem>) -> Option<LexemV> {
    match o {
        Some(l) => Some(l@),
        None => None,
    }
}

/// Whether `rem` begins with the characters of `name`.
fn str_prefix_eq(name: &str, rem: &str) -> (r: bool)
    ensures
        r == (rem@.len() >= name@.len() && rem@.subrange(0, name@.len() as int) =~= name@),
{
    let nl = name.unicode_len();
    let rl = rem.unicode_len();
    if nl > rl {
        return false;
    }
    let mut j: usize = 0;
    while j < nl
        invariant
            0 <= j <= nl,
            nl == name@.len(),
            rl == rem@.len(),
            nl <= rl,
            forall|k: int| 0 <= k < j ==> name@[k] == rem@[k],
        decreases nl - j,
    {
        if name.get_char(j) != rem.get_char(j) {
            assert(rem@.subrange(0, name@.len() as int)[j as int] != name@[j as int]);
            return false;
        }
        j += 1;
    }
    assert(rem@.subrange(0, name@.len() as int) =~= name@);
    true
}

impl Atom {
    /// The token type this atom produces, and the number of characters it
    /// matches at the start of the remaining input, if it matches at all.
    fn match_input(&self, rem: &str) -> (r: Option<(String, usize)>)
        ensures
            r is Some <==> atom_match(self@, rem@) is Some,
            r matches Some(p) ==> atom_match(self@, rem@) == Some(p.1 as int) && p.0@
                == self@.name() && p.1 <= rem@.len(),
    {
        match self {
            Atom::Simple { name } => {
                if str_prefix_eq(name.as_str(), rem) {
                    Some((name.clone(), name.as_str().unicode_len()))
                } else {
                    None
                }
            },
            Atom::Matched { name, m } => {
                match m.prefix_match_chars(rem) {
                    Some(l) => Some((name.clone(), l)),
                    None => None,
                }
            },
        }
    }
}

impl Grammar {
    /// The first atom in declaration order that matches the remaining
    /// input: its token type and the number of characters it consumes.
    fn match_input(&self, rem: &str) -> (r: Option<(String, usize)>)
        ensures
            r is Some <==> first_match(self@.atoms, rem@) is Some,
            r matches Some(p) ==> (first_match(self@.atoms, rem@) matches Some(q) && p.0@
                == self@.atoms[q.0].name() && p.1 as int == q.1 && p.1 <= rem@.len()),
    {
        let n = self.atoms.len();
        let mut i: usize = 0;
        while i < n
            invariant
                0 <= i <= n,
                n == self.atoms.len(),
                self@.atoms.len() == n,
                first_match(self@.atoms, rem@) == first_match_from(self@.atoms, rem@, i as int),
            decreases n - i,
        {
            assert(self@.atoms[i as int] == self.atoms[i as int]@);
            match self.atoms[i].match_input(rem) {
                Some(p) => {
                    return Some(p);
                },
                None => {},
            }
            i += 1;
        }
        None
    }
}

/// A lazily advancing token cursor over an input string and a grammar, with
/// one token of cached lookahead. Once scanning fails at some position, all
/// subsequent reads return no token.
pub struct LexemIter<'a> {
    pub grammar: &'a Grammar,
    pub input: &'a str,
    pub len: usize,
    pub cursor: usize,
    pub failed: bool,
    pub peeked: Option<Lexem>,
}

impl<'a> LexemIter<'a> {
    /// The stream state this cursor is in.
    pub open spec fn stv(&self) -> StreamV {
        StreamV { cursor: self.cursor as int, failed: self.failed, peeked: opt_lexem_view(self.peeked) }
    }

    /// The cursor lies inside the input, whose length is cached.
    pub open spec fn wf(&self) -> bool {
        self.len == self.input@.len() && self.cursor <= self.len
    }

    /// Moves the cursor past every ignorable character under it.
    fn skip_ignored(&mut self)
        requires
            old(self).wf(),
        ensures
            final(self).wf(),
            final(self).grammar == old(self).grammar,
            final(self).input == old(self).input,
            final(self).failed == old(self).failed,
            final(self).peeked == old(self).peeked,
            final(self).cursor as int == spec_skip(
                old(self).grammar.options,
                old(self).input@,
                old(self).cursor as int,
            ),
        decreases old(self).len - old(self).cursor,
    {
        if self.cursor < self.len {
            let c = self.input.get_char(self.cursor);
            let o = self.grammar.options;
            if (c == ' ' && o.ignore_whitespace) || (c == '\n' && o.ignore_newline) {
                self.cursor = self.cursor + 1;
                self.skip_ignored();
            }
        }
    }

    /// Takes the next token, as `spec_shift` describes.
    fn shift(&mut self) -> (r: Option<Lexem>)
        requires
            old(self).wf(),
        ensures
            final(self).wf(),
            final(self).grammar == old(self).grammar,
            final(self).input == old(self).input,
            final(self).len == old(self).len,
            ({
                let (s2, t) = spec_shift(old(self).grammar@, old(self).input@, old(self).stv());
                final(self).stv() == s2 && opt_lexem_view(r) == t
            }),
    {
        match &self.peeked {
            Some(l) => {
                let out = l.clone();
                self.peeked = None;
                return Some(out);
            },
            None => {},
        }
        if self.failed {
            return None;
        }
        self.skip_ignored();
        if self.cursor >= self.len {
            return None;
        }
        let rem = self.input.substring_char(self.cursor, self.len);
        match self.grammar.match_input(rem) {
            Some((t, l)) => {
                if l == 0 {
                    self.failed = true;
                    return None;
                }
                let raw = rem.substring_char(0, l).to_owned();
                let pos = self.cursor;
                self.cursor = self.cursor + l;
                self.skip_ignored();
                Some(Lexem { t, raw, pos })
            },
            None => {
                self.failed = true;
                None
            },
        }
    }

    /// Takes the next token; `None` at the end of the input or after a
    /// scanning failure.
    pub fn next(&mut self) -> (r: Option<Lexem>)
        requires
            old(self).wf(),
        ensures
            final(self).wf(),
            final(self).grammar == old(self).grammar,
            final(self).input == old(self).input,
            final(self).len == old(self).len,
            ({
                let (s2, t) = spec_shift(old(self).grammar@, old(self).input@, old(self).stv());
                final(self).stv() == s2 && opt_lexem_view(r) == t
            }),
    {
        self.shift()
    }

    /// Looks at the next token without consuming it; scans at most once and
    /// caches the result until the next take.
    pub fn peek(&mut self) -> (r: Option<Lexem>)
        requires
            old(self).wf(),
        ensures
            final(self).wf(),
            final(self).grammar == old(self).grammar,
            final(self).input == old(self).input,
            final(self).len == old(self).len,
            ({
                let (s2, t) = spec_peek(old(self).grammar@, old(self).input@, old(self).stv());
                final(self).stv() == s2 && opt_lexem_view(r) == t
            }),
    {
        match &self.peeked {
            Some(l) => {
                return Some(l.clone());
            },
            None => {},
        }
        let r = self.shift();
        match &r {
            Some(l) => {
                self.peeked = Some(l.clone());
                Some(l.clone())
            },
            None => None,
        }
    }
}

impl Lexem {
    /// A fresh token cursor over an input, reading atoms and options from a
    /// grammar.
    pub fn iter<'a>(grammar: &'a Grammar, input: &'a String) -> (r: LexemIter<'a>)
        ensures
            r.wf(),
            r.grammar == grammar,
            r.input@ == input@,
            r.stv() == initial_stream(),
    {
        LexemIter {
            grammar,
            input: input.as_str(),
            len: input.as_str().unicode_len(),
            cursor: 0,
            failed: false,
            peeked: None,
        }
    }
}

} // verus!
