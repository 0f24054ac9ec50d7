//! The header codec: key/value pairs of text carried in the bytes of one block.
//!
//! A header is read line by line:
//!
//! ```text
//! Header   := (Pair Newline | Newline)* Pair? EOF?
//! Pair     := Key Whitespace+ Value Whitespace* Comment?
//! Key      := one or more bytes other than space, tab, CR, LF, '#' and NUL (Value alike)
//! Comment  := '#' and every byte up to the end of the line
//! Newline  := "\n" | "\r\n"
//! EOF      := a NUL byte; what follows it (the padding of a block) is not read
//! ```
//!
//! Decoding gives one pair per key: where a key repeats, the last pair given for it is kept,
//! in its place, so no key comes twice in the result. Encoding writes `key SP value LF` for
//! each pair; keys and values are not checked for the bytes that the grammar reserves.

use vstd::prelude::*;
use vstd::utf8::*;
use crate::client::{DadaClient, DadaClientView, HeaderClient};
use crate::errors::{PsrdadaError, PsrdadaResult};
use crate::store::{Block, StoreView};

verus! {

pub open spec fn is_space(b: u8) -> bool {
    b == 0x20u8 || b == 0x09u8
}

pub open spec fn is_token_byte(b: u8) -> bool {
    !is_space(b) && b != 0x0Au8 && b != 0x0Du8 && b != 0x23u8 && b != 0u8
}

/// Where the line reader stands.
#[derive(PartialEq, Eq, Clone, Copy, Structural)]
pub enum Phase {
    /// At the start of a line.
    LineStart,
    /// Inside a key.
    Key,
    /// In the blanks after a key.
    KeySpace,
    /// Inside a value.
    Value,
    /// In the blanks after a value.
    ValueSpace,
    /// Inside a comment.
    Comment,
    /// After a CR that ends a pair's line.
    PairCr,
    /// After a CR on an empty line.
    BlankCr,
}

/// The line reader's state: its phase, the key and value being read, the pairs read so far.
pub struct Cursor {
    pub phase: Phase,
    pub key: Seq<u8>,
    pub value: Seq<u8>,
    pub pairs: Seq<(Seq<u8>, Seq<u8>)>,
}

pub open spec fn start_cursor() -> Cursor {
    Cursor { phase: Phase::LineStart, key: seq![], value: seq![], pairs: seq![] }
}

/// The pair being read joins the pairs, and a new line starts.
pub open spec fn emit(c: Cursor) -> Cursor {
    Cursor {
        phase: Phase::LineStart,
        key: seq![],
        value: seq![],
        pairs: c.pairs.push((c.key, c.value)),
    }
}

pub open spec fn with_phase(c: Cursor, p: Phase) -> Cursor {
    Cursor { phase: p, ..c }
}

/// One byte other than NUL read in state `c`; `None` where the grammar allows no such byte.
pub open spec fn step(c: Cursor, b: u8) -> Option<Cursor> {
    match c.phase {
        Phase::LineStart => if b == 0x0Au8 {
            Some(c)
        } else if b == 0x0Du8 {
            Some(with_phase(c, Phase::BlankCr))
        } else if is_token_byte(b) {
            Some(Cursor { phase: Phase::Key, key: seq![b], ..c })
        } else {
            None
        },
        Phase::Key => if is_token_byte(b) {
            Some(Cursor { key: c.key.push(b), ..c })
        } else if is_space(b) {
            Some(with_phase(c, Phase::KeySpace))
        } else {
            None
        },
        Phase::KeySpace => if is_space(b) {
            Some(c)
        } else if is_token_byte(b) {
            Some(Cursor { phase: Phase::Value, value: seq![b], ..c })
        } else {
            None
        },
        Phase::Value => if is_token_byte(b) {
            Some(Cursor { value: c.value.push(b), ..c })
        } else if is_space(b) {
            Some(with_phase(c, Phase::ValueSpace))
        } else if b == 0x23u8 {
            Some(with_phase(c, Phase::Comment))
        } else if b == 0x0Au8 {
            Some(emit(c))
        } else {
            Some(with_phase(c, Phase::PairCr))
        },
        Phase::ValueSpace => if is_space(b) {
            Some(c)
        } else if b == 0x23u8 {
            Some(with_phase(c, Phase::Comment))
        } else if b == 0x0Au8 {
            Some(emit(c))
        } else if b == 0x0Du8 {
            Some(with_phase(c, Phase::PairCr))
        } else {
            None
        },
        Phase::Comment => if b == 0x0Au8 {
            Some(emit(c))
        } else {
            Some(c)
        },
        Phase::PairCr => if b == 0x0Au8 {
            Some(emit(c))
        } else {
            None
        },
        Phase::BlankCr => if b == 0x0Au8 {
            Some(with_phase(c, Phase::LineStart))
        } else {
            None
        },
    }
}

/// The pairs, where the input may end (or meet EOF) in state `c`.
pub open spec fn finish(c: Cursor) -> Option<Seq<(Seq<u8>, Seq<u8>)>> {
    match c.phase {
        Phase::LineStart => Some(c.pairs),
        Phase::Value | Phase::ValueSpace | Phase::Comment => Some(c.pairs.push((c.key, c.value))),
        _ => None,
    }
}

/// Reads `s` from state `c` up to its end or its first NUL.
pub open spec fn scan(s: Seq<u8>, c: Cursor) -> Option<Seq<(Seq<u8>, Seq<u8>)>>
    decreases s.len(),
{
    if s.len() == 0 || s[0] == 0u8 {
        finish(c)
    } else {
        match step(c, s[0]) {
            Some(c2) => scan(s.drop_first(), c2),
            None => None,
        }
    }
}

/// The pairs of a header block, in order; `None` where it breaks the grammar.
pub open spec fn parse_header(s: Seq<u8>) -> Option<Seq<(Seq<u8>, Seq<u8>)>> {
    scan(s, start_cursor())
}

/// One line of an encoded header.
pub open spec fn encode_pair(p: (Seq<u8>, Seq<u8>)) -> Seq<u8> {
    p.0 + seq![0x20u8] + p.1 + seq![0x0Au8]
}

/// An encoded header: one line per pair, in order.
pub open spec fn encode_header(ps: Seq<(Seq<u8>, Seq<u8>)>) -> Seq<u8>
    decreases ps.len(),
{
    if ps.len() == 0 {
        seq![]
    } else {
        encode_pair(ps[0]) + encode_header(ps.drop_first())
    }
}

/// The bytes of each key and value of a header of text.
pub open spec fn header_bytes(h: Seq<(Seq<char>, Seq<char>)>) -> Seq<(Seq<u8>, Seq<u8>)> {
    Seq::new(h.len(), |i: int| (encode_utf8(h[i].0), encode_utf8(h[i].1)))
}

/// A key or a value that a header can carry: bytes of the token class, at least one.
pub open spec fn is_token(t: Seq<u8>) -> bool {
    t.len() > 0 && forall|i: int| 0 <= i < t.len() ==> is_token_byte(#[trigger] t[i])
}

/// One line of a header, as the grammar has it, ended by LF or by CR LF.
pub enum HeaderLine {
    /// An empty line.
    Blank { crlf: bool },
    /// A key, blanks, a value, blanks, and a comment (empty, or `#` and what follows).
    Pair {
        key: Seq<u8>,
        gap: Seq<u8>,
        value: Seq<u8>,
        trail: Seq<u8>,
        comment: Seq<u8>,
        crlf: bool,
    },
}

pub open spec fn all_space(t: Seq<u8>) -> bool {
    forall|i: int| 0 <= i < t.len() ==> is_space(#[trigger] t[i])
}

/// A comment: nothing, or `#` then bytes other than LF and NUL.
pub open spec fn is_comment(t: Seq<u8>) -> bool {
    t.len() == 0 || (t[0] == 0x23u8 && forall|i: int|
        0 < i < t.len() ==> #[trigger] t[i] != 0x0Au8 && t[i] != 0u8)
}

pub open spec fn line_ok(l: HeaderLine) -> bool {
    match l {
        HeaderLine::Blank { .. } => true,
        HeaderLine::Pair { key, gap, value, trail, comment, .. } => is_token(key) && gap.len() > 0
            && all_space(gap) && is_token(value) && all_space(trail) && is_comment(comment),
    }
}

pub open spec fn newline(crlf: bool) -> Seq<u8> {
    if crlf {
        seq![0x0Du8, 0x0Au8]
    } else {
        seq![0x0Au8]
    }
}

/// The bytes of one line.
pub open spec fn line_bytes(l: HeaderLine) -> Seq<u8> {
    match l {
        HeaderLine::Blank { crlf } => newline(crlf),
        HeaderLine::Pair { key, gap, value, trail, comment, crlf } => key + gap + value + trail
            + comment + newline(crlf),
    }
}

/// The bytes of a run of lines.
pub open spec fn lines_bytes(ls: Seq<HeaderLine>) -> Seq<u8>
    decreases ls.len(),
{
    if ls.len() == 0 {
        seq![]
    } else {
        line_bytes(ls[0]) + lines_bytes(ls.drop_first())
    }
}

/// The pairs that a run of lines carries, in order.
pub open spec fn lines_pairs(ls: Seq<HeaderLine>) -> Seq<(Seq<u8>, Seq<u8>)>
    decreases ls.len(),
{
    if ls.len() == 0 {
        seq![]
    } else {
        match ls[0] {
            HeaderLine::Blank { .. } => lines_pairs(ls.drop_first()),
            HeaderLine::Pair { key, value, .. } => seq![(key, value)] + lines_pairs(
                ls.drop_first(),
            ),
        }
    }
}

/// Relies on std::str::from_utf8: it succeeds exactly on valid UTF-8, and the text it gives
/// is made of those bytes.
#[verifier::external_body]
fn text_from_bytes(b: &[u8]) -> (r: Option<String>)
    ensures
        r is Some == valid_utf8(b@),
        r is Some ==> r->0@ == decode_utf8(b@),
{
    match std::str::from_utf8(b) {
        Ok(s) => Some(s.to_owned()),
        Err(_) => None,
    }
}

/// The exec mirror of a cursor's phase, key and value.
struct LineReader {
    phase: Phase,
    key: Vec<u8>,
    value: Vec<u8>,
    pairs: Vec<(Vec<u8>, Vec<u8>)>,
}

impl LineReader {
    spec fn pairs_view(&self) -> Seq<(Seq<u8>, Seq<u8>)> {
        Seq::new(self.pairs@.len(), |i: int| (self.pairs@[i].0@, self.pairs@[i].1@))
    }

    spec fn cursor(&self) -> Cursor {
        Cursor {
            phase: self.phase,
            key: self.key@,
            value: self.value@,
            pairs: self.pairs_view(),
        }
    }

    fn emit(&mut self)
        ensures
            final(self).cursor() == emit(old(self).cursor()),
    {
        let ghost before = self.pairs_view();
        let mut key: Vec<u8> = Vec::new();
        let mut value: Vec<u8> = Vec::new();
        std::mem::swap(&mut key, &mut self.key);
        std::mem::swap(&mut value, &mut self.value);
        self.pairs.push((key, value));
        self.phase = Phase::LineStart;
        assert(self.pairs_view() =~= before.push((old(self).key@, old(self).value@)));
        assert(self.key@ =~= seq![]);
        assert(self.value@ =~= seq![]);
    }

    fn start_token(v: &mut Vec<u8>, b: u8)
        ensures
            final(v)@ == seq![b],
    {
        *v = Vec::new();
        v.push(b);
        assert(v@ =~= seq![b]);
    }

    /// Reads one byte other than NUL; false where the grammar allows no such byte.
    fn step(&mut self, b: u8) -> (r: bool)
        requires
            b != 0u8,
        ensures
            r == step(old(self).cursor(), b) is Some,
            r ==> final(self).cursor() == step(old(self).cursor(), b)->0,
    {
        let space = b == 0x20u8 || b == 0x09u8;
        let token = !space && b != 0x0Au8 && b != 0x0Du8 && b != 0x23u8 && b != 0u8;
        match self.phase {
            Phase::LineStart => if b == 0x0Au8 {
                true
            } else if b == 0x0Du8 {
                self.phase = Phase::BlankCr;
                true
            } else if token {
                Self::start_token(&mut self.key, b);
                self.phase = Phase::Key;
                true
            } else {
                false
            },
            Phase::Key => if token {
                self.key.push(b);
                true
            } else if space {
                self.phase = Phase::KeySpace;
                true
            } else {
                false
            },
            Phase::KeySpace => if space {
                true
            } else if token {
                Self::start_token(&mut self.value, b);
                self.phase = Phase::Value;
                true
            } else {
                false
            },
            Phase::Value => if token {
                self.value.push(b);
                true
            } else if space {
                self.phase = Phase::ValueSpace;
                true
            } else if b == 0x23u8 {
                self.phase = Phase::Comment;
                true
            } else if b == 0x0Au8 {
                self.emit();
                true
            } else {
                self.phase = Phase::PairCr;
                true
            },
            Phase::ValueSpace => if space {
                true
            } else if b == 0x23u8 {
                self.phase = Phase::Comment;
                true
            } else if b == 0x0Au8 {
                self.emit();
                true
            } else if b == 0x0Du8 {
                self.phase = Phase::PairCr;
                true
            } else {
                false
            },
            Phase::Comment => if b == 0x0Au8 {
                self.emit();
                true
            } else {
                true
            },
            Phase::PairCr => if b == 0x0Au8 {
                self.emit();
                true
            } else {
                false
            },
            Phase::BlankCr => if b == 0x0Au8 {
                self.phase = Phase::LineStart;
                true
            } else {
                false
            },
        }
    }

    /// The pairs, where the input ends here; `None` where it may not.
    fn finish(self) -> (r: Option<Vec<(Vec<u8>, Vec<u8>)>>)
        ensures
            r is Some == finish(self.cursor()) is Some,
            r is Some ==> r->0@.len() == finish(self.cursor())->0.len() && forall|i: int|
                0 <= i < r->0@.len() ==> (#[trigger] r->0@[i]).0@ == finish(self.cursor())->0[i].0
                    && r->0@[i].1@ == finish(self.cursor())->0[i].1,
    {
        match self.phase {
            Phase::LineStart => Some(self.pairs),
            Phase::Value | Phase::ValueSpace | Phase::Comment => {
                let mut pairs = self.pairs;
                pairs.push((self.key, self.value));
                Some(pairs)
            },
            _ => None,
        }
    }
}

/// Splits a header block into its pairs of bytes, in order, or `None` where it breaks the
/// grammar.
pub fn parse_header_pairs(bytes: &[u8]) -> (r: Option<Vec<(Vec<u8>, Vec<u8>)>>)
    ensures
        r is Some == parse_header(bytes@) is Some,
        r is Some ==> r->0@.len() == parse_header(bytes@)->0.len() && forall|i: int|
            0 <= i < r->0@.len() ==> (#[trigger] r->0@[i]).0@ == parse_header(bytes@)->0[i].0
                && r->0@[i].1@ == parse_header(bytes@)->0[i].1,
{
    let mut reader = LineReader {
        phase: Phase::LineStart,
        key: Vec::new(),
        value: Vec::new(),
        pairs: Vec::new(),
    };
    proof {
        assert(reader.pairs_view() =~= seq![]);
        assert(reader.key@ =~= seq![]);
        assert(reader.value@ =~= seq![]);
        assert(bytes@.skip(0) =~= bytes@);
    }
    let mut i: usize = 0;
    while i < bytes.len()
        invariant
            i <= bytes@.len(),
            scan(bytes@, start_cursor()) == scan(bytes@.skip(i as int), reader.cursor()),
        decreases bytes@.len() - i,
    {
        let b = bytes[i];
        proof {
            assert(bytes@.skip(i as int)[0] == b);
            assert(bytes@.skip(i as int).drop_first() =~= bytes@.skip(i + 1));
        }
        if b == 0u8 {
            return reader.finish();
        }
        if !reader.step(b) {
            return None;
        }
        i = i + 1;
    }
    assert(bytes@.skip(i as int).len() == 0);
    reader.finish()
}

/// Some pair after position `i` has the same key as the pair at `i`.
pub open spec fn later_has_key(ps: Seq<(Seq<u8>, Seq<u8>)>, i: int) -> bool {
    exists|j: int| i < j < ps.len() && (#[trigger] ps[j]).0 == ps[i].0
}

/// The first `n` pairs, less each whose key comes again later in `ps`.
pub open spec fn kept(ps: Seq<(Seq<u8>, Seq<u8>)>, n: nat) -> Seq<(Seq<u8>, Seq<u8>)>
    decreases n,
{
    if n == 0 {
        seq![]
    } else if later_has_key(ps, n - 1) {
        kept(ps, (n - 1) as nat)
    } else {
        kept(ps, (n - 1) as nat).push(ps[n - 1])
    }
}

/// The pairs of `ps` with one pair per key: the last one given for it, in order.
pub open spec fn last_wins(ps: Seq<(Seq<u8>, Seq<u8>)>) -> Seq<(Seq<u8>, Seq<u8>)> {
    kept(ps, ps.len())
}

/// Keys of `ps` are pairwise distinct.
pub open spec fn keys_unique(ps: Seq<(Seq<u8>, Seq<u8>)>) -> bool {
    forall|i: int, j: int| 0 <= i < j < ps.len() ==> (#[trigger] ps[i]).0 != (#[trigger] ps[j]).0
}

/// Keeping the first `m` pairs gives a prefix of keeping the first `n`, for `m <= n`.
pub proof fn lemma_kept_prefix(ps: Seq<(Seq<u8>, Seq<u8>)>, m: nat, n: nat)
    requires
        m <= n,
    ensures
        kept(ps, m).len() <= kept(ps, n).len(),
        forall|k: int| 0 <= k < kept(ps, m).len() ==> #[trigger] kept(ps, n)[k] == kept(ps, m)[k],
    decreases n,
{
    if m < n {
        lemma_kept_prefix(ps, m, (n - 1) as nat);
    }
}

/// No two pairs kept from the first `n` share a key, and none shares a key with a pair at
/// position `n` or later.
proof fn lemma_kept_unique(ps: Seq<(Seq<u8>, Seq<u8>)>, n: nat)
    requires
        n <= ps.len(),
    ensures
        keys_unique(kept(ps, n)),
        forall|k: int, j: int|
            0 <= k < kept(ps, n).len() && n <= j < ps.len() ==> (#[trigger] kept(ps, n)[k]).0
                != (#[trigger] ps[j]).0,
    decreases n,
{
    if n > 0 {
        lemma_kept_unique(ps, (n - 1) as nat);
        let prev = kept(ps, (n - 1) as nat);
        if !later_has_key(ps, n - 1) {
            let cur = kept(ps, n);
            assert forall|k: int, j: int|
                0 <= k < cur.len() && n <= j < ps.len() implies (#[trigger] cur[k]).0 != (
            #[trigger] ps[j]).0 by {
                if k < prev.len() {
                    assert(cur[k] == prev[k]);
                } else {
                    assert(cur[k] == ps[n - 1]);
                }
            }
            assert forall|a: int, b: int| 0 <= a < b < cur.len() implies (#[trigger] cur[a]).0
                != (#[trigger] cur[b]).0 by {
                assert(cur[a] == prev[a]);
                if b < prev.len() {
                    assert(cur[b] == prev[b]);
                } else {
                    assert(cur[b] == ps[n - 1]);
                    assert(prev[a].0 != ps[n - 1].0);
                }
            }
        }
    }
}

/// One pair per key: the result of `last_wins` never repeats a key.
pub proof fn lemma_last_wins_unique(ps: Seq<(Seq<u8>, Seq<u8>)>)
    ensures
        keys_unique(last_wins(ps)),
{
    lemma_kept_unique(ps, ps.len());
}

/// Where no key repeats, every pair is kept.
pub proof fn lemma_last_wins_of_unique(ps: Seq<(Seq<u8>, Seq<u8>)>)
    requires
        keys_unique(ps),
    ensures
        last_wins(ps) == ps,
{
    lemma_kept_all(ps, ps.len());
    assert(ps.take(ps.len() as int) =~= ps);
}

proof fn lemma_kept_all(ps: Seq<(Seq<u8>, Seq<u8>)>, n: nat)
    requires
        keys_unique(ps),
        n <= ps.len(),
    ensures
        kept(ps, n) == ps.take(n as int),
    decreases n,
{
    if n == 0 {
        assert(ps.take(0) =~= seq![]);
    } else {
        lemma_kept_all(ps, (n - 1) as nat);
        if later_has_key(ps, n - 1) {
            let j = choose|j: int| n - 1 < j < ps.len() && (#[trigger] ps[j]).0 == ps[n - 1].0;
            assert(ps[n - 1].0 != ps[j].0);
        }
        assert(ps.take(n - 1).push(ps[n - 1]) =~= ps.take(n as int));
    }
}

/// What decoding `bytes` gives: `HeaderParseError` where they break the grammar,
/// `UTF8Error` where a key or value that is kept is not valid UTF-8, else one pair per key,
/// the last given for it, decoded, in order.
pub open spec fn decodes_to(bytes: Seq<u8>, r: PsrdadaResult<Vec<(String, String)>>) -> bool {
    &&& parse_header(bytes) is None ==> r == Err::<Vec<(String, String)>, _>(
        PsrdadaError::HeaderParseError,
    )
    &&& parse_header(bytes) is Some ==> {
        let ks = last_wins(parse_header(bytes)->0);
        &&& r is Ok == forall|i: int|
            0 <= i < ks.len() ==> valid_utf8(#[trigger] ks[i].0) && valid_utf8(ks[i].1)
        &&& r is Ok ==> r->Ok_0@.len() == ks.len() && forall|i: int|
            0 <= i < ks.len() ==> (#[trigger] r->Ok_0@[i]).0@ == decode_utf8(ks[i].0)
                && r->Ok_0@[i].1@ == decode_utf8(ks[i].1)
        &&& r is Err ==> r == Err::<Vec<(String, String)>, _>(PsrdadaError::UTF8Error)
    }
}

fn same_bytes(a: &Vec<u8>, b: &Vec<u8>) -> (r: bool)
    ensures
        r == (a@ == b@),
{
    if a.len() != b.len() {
        return false;
    }
    let mut i: usize = 0;
    while i < a.len()
        invariant
            a@.len() == b@.len(),
            i <= a@.len(),
            forall|k: int| 0 <= k < i ==> a@[k] == b@[k],
        decreases a@.len() - i,
    {
        if a[i] != b[i] {
            return false;
        }
        i = i + 1;
    }
    assert(a@ =~= b@);
    true
}

/// Whether a pair after position `i` has the key of the pair at `i`.
fn key_comes_later(pairs: &Vec<(Vec<u8>, Vec<u8>)>, i: usize, ps: Ghost<Seq<(Seq<u8>, Seq<u8>)>>) -> (r: bool)
    requires
        i < pairs@.len(),
        pairs@.len() == ps@.len(),
        forall|j: int| 0 <= j < ps@.len() ==> (#[trigger] pairs@[j]).0@ == ps@[j].0,
    ensures
        r == later_has_key(ps@, i as int),
{
    let n = pairs.len();
    let mut j: usize = i + 1;
    while j < n
        invariant
            i < j <= pairs@.len(),
            n == pairs@.len(),
            pairs@.len() == ps@.len(),
            forall|k: int| 0 <= k < ps@.len() ==> (#[trigger] pairs@[k]).0@ == ps@[k].0,
            forall|k: int| i < k < j ==> (#[trigger] ps@[k]).0 != ps@[i as int].0,
        decreases pairs@.len() - j,
    {
        if same_bytes(&pairs[j].0, &pairs[i].0) {
            assert(pairs@[j as int].0@ == ps@[j as int].0);
            assert(pairs@[i as int].0@ == ps@[i as int].0);
            return true;
        }
        assert(pairs@[j as int].0@ == ps@[j as int].0);
        assert(pairs@[i as int].0@ == ps@[i as int].0);
        j = j + 1;
    }
    false
}

/// Decodes a header block into its pairs of text, one per key: where a key repeats, the
/// last pair given for it is kept, in its place. Fails with `HeaderParseError` where the
/// block breaks the grammar, and with `UTF8Error` where a kept key or value is not valid
/// UTF-8.
pub fn bytes_to_header(bytes: &[u8]) -> (r: PsrdadaResult<Vec<(String, String)>>)
    ensures
        decodes_to(bytes@, r),
        r is Ok ==> forall|i: int, j: int|
            0 <= i < j < r->Ok_0@.len() ==> (#[trigger] r->Ok_0@[i]).0@ != (
            #[trigger] r->Ok_0@[j]).0@,
{
    let pairs = match parse_header_pairs(bytes) {
        Some(p) => p,
        None => return Err(PsrdadaError::HeaderParseError),
    };
    let ghost ps = parse_header(bytes@)->0;
    let ghost ks = last_wins(ps);
    let mut out: Vec<(String, String)> = Vec::new();
    let mut i: usize = 0;
    while i < pairs.len()
        invariant
            parse_header(bytes@) is Some,
            ps == parse_header(bytes@)->0,
            ks == last_wins(ps),
            i <= pairs@.len(),
            pairs@.len() == ps.len(),
            forall|j: int| 0 <= j < ps.len() ==> (#[trigger] pairs@[j]).0@ == ps[j].0
                && pairs@[j].1@ == ps[j].1,
            out@.len() == kept(ps, i as nat).len(),
            forall|j: int|
                0 <= j < out@.len() ==> valid_utf8(#[trigger] kept(ps, i as nat)[j].0) && valid_utf8(
                    kept(ps, i as nat)[j].1,
                ),
            forall|j: int|
                0 <= j < out@.len() ==> (#[trigger] out@[j]).0@ == decode_utf8(
                    kept(ps, i as nat)[j].0,
                ) && out@[j].1@ == decode_utf8(kept(ps, i as nat)[j].1),
        decreases pairs@.len() - i,
    {
        let later = key_comes_later(&pairs, i, Ghost(ps));
        if later {
            assert(kept(ps, (i + 1) as nat) == kept(ps, i as nat));
            i = i + 1;
            continue;
        }
        let ghost before = kept(ps, i as nat);
        assert(kept(ps, (i + 1) as nat) == before.push(ps[i as int]));
        proof {
            lemma_kept_prefix(ps, (i + 1) as nat, ps.len());
            assert(kept(ps, ps.len())[before.len() as int] == kept(ps, (i + 1) as nat)[before.len() as int]);
        }
        let kb = pairs[i].0.as_slice();
        let vb = pairs[i].1.as_slice();
        assert(kb@ == ps[i as int].0 && vb@ == ps[i as int].1);
        let key = match text_from_bytes(kb) {
            Some(k) => k,
            None => {
                assert(!valid_utf8(ks[before.len() as int].0));
                return Err(PsrdadaError::UTF8Error);
            },
        };
        let value = match text_from_bytes(vb) {
            Some(v) => v,
            None => {
                assert(!valid_utf8(ks[before.len() as int].1));
                return Err(PsrdadaError::UTF8Error);
            },
        };
        let ghost at = i as int;
        let ghost out_before = out@;
        assert(forall|j: int| 0 <= j < out_before.len() ==> valid_utf8(#[trigger] before[j].0)
            && valid_utf8(before[j].1) && out_before[j].0@ == decode_utf8(before[j].0)
            && out_before[j].1@ == decode_utf8(before[j].1));
        out.push((key, value));
        i = i + 1;
        assert(kept(ps, i as nat) == before.push(ps[at]));
        assert forall|j: int| 0 <= j < out@.len() implies valid_utf8(
            #[trigger] kept(ps, i as nat)[j].0,
        ) && valid_utf8(kept(ps, i as nat)[j].1) && out@[j].0@ == decode_utf8(
            kept(ps, i as nat)[j].0,
        ) && out@[j].1@ == decode_utf8(kept(ps, i as nat)[j].1) by {
            if j < before.len() {
                assert(kept(ps, i as nat)[j] == before[j]);
                assert(out@[j] == out_before[j]);
            } else {
                assert(kept(ps, i as nat)[j] == ps[at]);
            }
        }
    }
    proof {
        broadcast use decode_utf8_encode_utf8;

        lemma_last_wins_unique(ps);
        assert forall|a: int, b: int| 0 <= a < b < out@.len() implies (#[trigger] out@[a]).0@ != (
        #[trigger] out@[b]).0@ by {
            assert(ks[a].0 != ks[b].0);
            assert(encode_utf8(decode_utf8(ks[a].0)) == ks[a].0);
            assert(encode_utf8(decode_utf8(ks[b].0)) == ks[b].0);
        }
    }
    Ok(out)
}

/// Encodes pairs of text as a header: `key SP value LF` for each, in order.
pub fn header_to_bytes(header: &Vec<(String, String)>) -> (r: Vec<u8>)
    ensures
        r@ == encode_header(header_bytes(header_text(header@))),
{
    let ghost h = header_text(header@);
    let mut out: Vec<u8> = Vec::new();
    let mut i: usize = 0;
    assert(header_bytes(h).skip(0) =~= header_bytes(h));
    assert(out@ + encode_header(header_bytes(h)) =~= encode_header(header_bytes(h)));
    while i < header.len()
        invariant
            i <= header@.len(),
            h == header_text(header@),
            encode_header(header_bytes(h)) == out@ + encode_header(header_bytes(h).skip(i as int)),
        decreases header@.len() - i,
    {
        let k = header[i].0.as_str().as_bytes();
        let v = header[i].1.as_str().as_bytes();
        proof {
            let hb = header_bytes(h);
            assert(hb.skip(i as int).drop_first() =~= hb.skip(i + 1));
            assert(hb.skip(i as int)[0] == (k@, v@));
        }
        let ghost prev = out@;
        out.extend_from_slice(k);
        out.push(0x20u8);
        out.extend_from_slice(v);
        out.push(0x0Au8);
        proof {
            assert(out@ =~= prev + encode_pair((k@, v@)));
        }
        i = i + 1;
    }
    proof {
        assert(header_bytes(h).skip(i as int) =~= seq![]);
        assert(out@ + seq![] =~= out@);
    }
    out
}


/// The text of a header as pairs of character sequences.
pub open spec fn header_text(header: Seq<(String, String)>) -> Seq<(Seq<char>, Seq<char>)> {
    header.map_values(|p: (String, String)| (p.0@, p.1@))
}

/// The block that carries an encoded header in a slot of `slot_size` bytes: the encoding,
/// then zeros up to the end of the slot.
pub open spec fn header_block(enc: Seq<u8>, slot_size: nat) -> Seq<u8> {
    enc + Seq::new((slot_size - enc.len()) as nat, |i: int| 0u8)
}

impl HeaderClient {
    /// Writes `header` as one full block of the header ring, padded with zeros, taking and
    /// giving up the writer role around it. Fails with `HeaderOverflow` where the encoding
    /// does not fit in a slot, with `DadaLockingError` while a writer holds the ring, and
    /// with `DadaWriteError` while every slot is filled.
    pub fn push_header(&mut self, header: &Vec<(String, String)>) -> (r: PsrdadaResult<usize>)
        requires
            old(self).wf(),
        ensures
            final(self).wf(),
            ({
                let enc = encode_header(header_bytes(header_text(header@)));
                let v = old(self)@;
                if enc.len() > v.slot_size {
                    r == Err::<usize, _>(PsrdadaError::HeaderOverflow) && final(self)@ == v
                } else if v.writer_held {
                    r == Err::<usize, _>(PsrdadaError::DadaLockingError) && final(self)@ == v
                } else if v.queue.len() == v.slot_count {
                    r == Err::<usize, _>(PsrdadaError::DadaWriteError) && final(self)@ == v
                } else {
                    r == Ok::<usize, PsrdadaError>(v.slot_size as usize) && final(self)@ == (
                    StoreView {
                        queue: v.queue.push(
                            Block { data: header_block(enc, v.slot_size), eod: false },
                        ),
                        ..v
                    })
                }
            }),
    {
        let mut bytes = header_to_bytes(header);
        let ghost enc = bytes@;
        let size = self.buf_size();
        if bytes.len() > size {
            return Err(PsrdadaError::HeaderOverflow);
        }
        while bytes.len() < size
            invariant
                enc.len() <= bytes@.len() <= size,
                bytes@ == header_block(enc, (bytes@.len()) as nat),
            decreases size - bytes@.len(),
        {
            bytes.push(0u8);
            assert(bytes@ =~= header_block(enc, (bytes@.len()) as nat));
        }
        let mut writer = match self.writer() {
            Ok(w) => w,
            Err(e) => return Err(e),
        };
        let r = writer.push(bytes.as_slice());
        writer.unlock();
        r
    }

    /// Reads the oldest block of the header ring, clears it and decodes it, taking and giving
    /// up the reader role around it. Fails with `DadaLockingError` while a reader holds the
    /// ring, and with `HeaderEodError` after end-of-data or while no block is filled.
    pub fn pop_header(&mut self) -> (r: PsrdadaResult<Vec<(String, String)>>)
        requires
            old(self).wf(),
        ensures
            final(self).wf(),
            ({
                let v = old(self)@;
                if v.reader_held {
                    r == Err::<Vec<(String, String)>, _>(PsrdadaError::DadaLockingError)
                        && final(self)@ == v
                } else if v.exhausted || v.queue.len() == 0 {
                    r == Err::<Vec<(String, String)>, _>(PsrdadaError::HeaderEodError)
                        && final(self)@ == v
                } else {
                    decodes_to(v.queue[0].data, r) && final(self)@ == (StoreView {
                        queue: v.queue.drop_first(),
                        exhausted: v.queue[0].eod,
                        ..v
                    })
                }
            }),
    {
        let mut reader = match self.reader() {
            Ok(rd) => rd,
            Err(e) => return Err(e),
        };
        let popped = reader.pop();
        reader.unlock();
        match popped {
            Some(bytes) => bytes_to_header(bytes.as_slice()),
            None => Err(PsrdadaError::HeaderEodError),
        }
    }
}

impl DadaClient {
    /// Writes `header` to the header ring; see `HeaderClient::push_header`.
    pub fn push_header(&mut self, header: &Vec<(String, String)>) -> (r: PsrdadaResult<usize>)
        requires
            old(self).wf(),
        ensures
            final(self).wf(),
            ({
                let enc = encode_header(header_bytes(header_text(header@)));
                let v = old(self)@.header;
                if enc.len() > v.slot_size {
                    r == Err::<usize, _>(PsrdadaError::HeaderOverflow) && final(self)@ == old(self)@
                } else if v.writer_held {
                    r == Err::<usize, _>(PsrdadaError::DadaLockingError) && final(self)@ == old(
                        self,
                    )@
                } else if v.queue.len() == v.slot_count {
                    r == Err::<usize, _>(PsrdadaError::DadaWriteError) && final(self)@ == old(self)@
                } else {
                    r == Ok::<usize, PsrdadaError>(v.slot_size as usize) && final(self)@ == (
                    DadaClientView {
                        header: StoreView {
                            queue: v.queue.push(
                                Block { data: header_block(enc, v.slot_size), eod: false },
                            ),
                            ..v
                        },
                        ..old(self)@
                    })
                }
            }),
    {
        let (hc, _) = self.split();
        hc.push_header(header)
    }

    /// Reads and decodes the oldest block of the header ring; see `HeaderClient::pop_header`.
    pub fn pop_header(&mut self) -> (r: PsrdadaResult<Vec<(String, String)>>)
        requires
            old(self).wf(),
        ensures
            final(self).wf(),
            ({
                let v = old(self)@.header;
                if v.reader_held {
                    r == Err::<Vec<(String, String)>, _>(PsrdadaError::DadaLockingError)
                        && final(self)@ == old(self)@
                } else if v.exhausted || v.queue.len() == 0 {
                    r == Err::<Vec<(String, String)>, _>(PsrdadaError::HeaderEodError)
                        && final(self)@ == old(self)@
                } else {
                    decodes_to(v.queue[0].data, r) && final(self)@ == (DadaClientView {
                        header: StoreView {
                            queue: v.queue.drop_first(),
                            exhausted: v.queue[0].eod,
                            ..v
                        },
                        ..old(self)@
                    })
                }
            }),
    {
        let (hc, _) = self.split();
        hc.pop_header()
    }
}

} // verus!
