//! Laws of the block protocol and of the header codec, stated over the transitions that the
//! contracts of `Writer`, `Reader`, `WriteBlock`, `ReadBlock` and the codec use.

use vstd::prelude::*;
use vstd::utf8::*;
use crate::errors::PsrdadaResult;
use crate::headers::{
    decodes_to, emit, encode_header, lemma_last_wins_of_unique, encode_pair, header_bytes, header_text, is_token,
    is_comment, is_space, is_token_byte, line_bytes, line_ok, lines_bytes, lines_pairs, newline,
    parse_header, scan, HeaderLine, start_cursor, step, with_phase, Cursor, Phase,
};
use crate::io::{committed_block, filled_len, pop_yields, push_accepts, pushed, WriteBlockView};
use crate::store::{cleared, committed, view_ok, Block, StoreView};

verus! {

/// A store with no filled slot, no open block, and end-of-data not seen: what creating or
/// resetting a store leaves.
pub open spec fn is_idle(v: StoreView) -> bool {
    view_ok(v) && v.queue.len() == 0 && !v.exhausted && !v.write_open && !v.read_open
}

/// Round trip: bytes that fit in a slot, pushed onto an idle store, are accepted, and the
/// next pop hands exactly them back.
pub proof fn lemma_round_trip(v: StoreView, b: Seq<u8>)
    requires
        is_idle(v),
        b.len() <= v.slot_size,
    ensures
        push_accepts(v, b),
        pop_yields(pushed(v, b)) == Some(b),
{
}

/// Implicit end-of-data: a push shorter than a slot ends the stream, so that once it is
/// drained the next pop gives nothing, whatever is pushed after it; a push of exactly a slot
/// does not, and a later push is read as usual.
pub proof fn lemma_implicit_eod(v: StoreView, b: Seq<u8>, later: Seq<u8>)
    requires
        is_idle(v),
        b.len() <= v.slot_size,
        later.len() <= v.slot_size,
    ensures
        b.len() < v.slot_size ==> pop_yields(cleared(pushed(v, b))) is None
            && pop_yields(pushed(cleared(pushed(v, b)), later)) is None,
        b.len() == v.slot_size ==> is_idle(cleared(pushed(v, b))) && pop_yields(
            pushed(cleared(pushed(v, b)), later),
        ) == Some(later),
{
}

/// Explicit end-of-data: a write block that fills its whole slot and is marked end-of-data
/// ends the stream too; once the slot is drained the next pop gives nothing.
pub proof fn lemma_explicit_eod(v: StoreView, w: WriteBlockView, later: Seq<u8>)
    requires
        is_idle(v),
        v.writer_held,
        w.bytes.len() == v.slot_size,
        filled_len(w) == v.slot_size,
        w.eod,
    ensures
        ({
            let opened = StoreView { write_open: true, ..v };
            let drained = cleared(committed(opened, committed_block(w, v.slot_size)));
            &&& pop_yields(committed(opened, committed_block(w, v.slot_size))) == Some(w.bytes)
            &&& drained.exhausted
            &&& pop_yields(drained) is None
            &&& pop_yields(pushed(drained, later)) is None
        }),
{
    assert(w.bytes.take(filled_len(w) as int) =~= w.bytes);
}

/// End-of-data is final: once the reader has seen it, no pop hands anything out, whatever
/// is pushed after it, until a reset.
pub proof fn lemma_eod_is_final(v: StoreView, ps: Seq<Seq<u8>>)
    requires
        v.exhausted,
    ensures
        push_all(v, ps).exhausted,
        pop_yields(push_all(v, ps)) is None,
    decreases ps.len(),
{
    if ps.len() > 0 {
        lemma_eod_is_final(pushed(v, ps[0]), ps.drop_first());
    }
}

/// A reset, which needs the writer role free, leaves the store idle, so a new stream starts.
pub proof fn lemma_reset_restarts(v: StoreView)
    requires
        view_ok(v),
        !v.writer_held,
    ensures
        is_idle(StoreView { queue: Seq::empty(), exhausted: false, read_open: false, ..v }),
{
}

/// The store after pushing each of `ps` in order.
pub open spec fn push_all(v: StoreView, ps: Seq<Seq<u8>>) -> StoreView
    decreases ps.len(),
{
    if ps.len() == 0 {
        v
    } else {
        push_all(pushed(v, ps[0]), ps.drop_first())
    }
}

/// Every push of `ps`, in order from `v`, is accepted.
pub open spec fn all_accepted(v: StoreView, ps: Seq<Seq<u8>>) -> bool
    decreases ps.len(),
{
    ps.len() == 0 || (push_accepts(v, ps[0]) && all_accepted(pushed(v, ps[0]), ps.drop_first()))
}

/// What `n` pops in a row hand out, up to the first that gives nothing.
pub open spec fn drain(v: StoreView, n: nat) -> Seq<Seq<u8>>
    decreases n,
{
    if n == 0 {
        seq![]
    } else {
        match pop_yields(v) {
            Some(d) => seq![d] + drain(cleared(v), (n - 1) as nat),
            None => seq![],
        }
    }
}

/// Full slots holding `ps`, none of them end-of-data.
pub open spec fn full_blocks(ps: Seq<Seq<u8>>) -> Seq<Block> {
    Seq::new(ps.len(), |i: int| Block { data: ps[i], eod: false })
}

proof fn lemma_push_all_full(v: StoreView, ps: Seq<Seq<u8>>)
    requires
        !v.write_open,
        v.queue.len() + ps.len() <= v.slot_count,
        forall|i: int| 0 <= i < ps.len() ==> (#[trigger] ps[i]).len() == v.slot_size,
    ensures
        all_accepted(v, ps),
        push_all(v, ps) == (StoreView { queue: v.queue + full_blocks(ps), ..v }),
    decreases ps.len(),
{
    if ps.len() == 0 {
        assert(v.queue + full_blocks(ps) =~= v.queue);
    } else {
        let w = pushed(v, ps[0]);
        let rest = ps.drop_first();
        assert forall|i: int| 0 <= i < rest.len() implies (#[trigger] rest[i]).len()
            == w.slot_size by {
            assert(rest[i] == ps[i + 1]);
        }
        lemma_push_all_full(w, rest);
        assert(w.queue + full_blocks(rest) =~= v.queue + full_blocks(ps));
    }
}

proof fn lemma_drain_full(v: StoreView, n: nat)
    requires
        !v.exhausted,
        !v.read_open,
        n <= v.queue.len(),
        forall|i: int| 0 <= i < v.queue.len() ==> !(#[trigger] v.queue[i]).eod,
    ensures
        drain(v, n) == Seq::new(n, |i: int| v.queue[i].data),
    decreases n,
{
    if n == 0 {
        assert(drain(v, n) =~= Seq::new(n, |i: int| v.queue[i].data));
    } else {
        let w = cleared(v);
        assert forall|i: int| 0 <= i < w.queue.len() implies !(#[trigger] w.queue[i]).eod by {
            assert(w.queue[i] == v.queue[i + 1]);
        }
        lemma_drain_full(w, (n - 1) as nat);
        assert(drain(v, n) =~= Seq::new(n, |i: int| v.queue[i].data));
    }
}

/// Order: full slots pushed in order onto an idle store with room for all of them are all
/// accepted, and draining hands them out in the same order.
pub proof fn lemma_fifo(v: StoreView, ps: Seq<Seq<u8>>)
    requires
        is_idle(v),
        ps.len() <= v.slot_count,
        forall|i: int| 0 <= i < ps.len() ==> (#[trigger] ps[i]).len() == v.slot_size,
    ensures
        all_accepted(v, ps),
        drain(push_all(v, ps), ps.len()) == ps,
{
    lemma_push_all_full(v, ps);
    let w = push_all(v, ps);
    assert(w.queue =~= full_blocks(ps));
    lemma_drain_full(w, ps.len());
    assert(Seq::new(ps.len(), |i: int| w.queue[i].data) =~= ps);
}

/// What a pop after each push hands out, for `ps` pushed one at a time.
pub open spec fn cycle_reads(v: StoreView, ps: Seq<Seq<u8>>) -> Seq<Seq<u8>>
    decreases ps.len(),
{
    if ps.len() == 0 {
        seq![]
    } else {
        let w = pushed(v, ps[0]);
        match pop_yields(w) {
            Some(d) => seq![d] + cycle_reads(cleared(w), ps.drop_first()),
            None => seq![],
        }
    }
}

/// Every push of `ps` is accepted when each is followed by a pop.
pub open spec fn cycles_accepted(v: StoreView, ps: Seq<Seq<u8>>) -> bool
    decreases ps.len(),
{
    ps.len() == 0 || (push_accepts(v, ps[0]) && cycles_accepted(
        cleared(pushed(v, ps[0])),
        ps.drop_first(),
    ))
}

/// Reuse: on an idle store, any number of full-slot pushes, each followed by a pop, more
/// than there are slots included, are all accepted and read back unchanged. Which slot each
/// lands in wraps around the ring; the store's own contracts tie each slot to its place in
/// the queue.
pub proof fn lemma_wraparound(v: StoreView, ps: Seq<Seq<u8>>)
    requires
        is_idle(v),
        forall|i: int| 0 <= i < ps.len() ==> (#[trigger] ps[i]).len() == v.slot_size,
    ensures
        cycles_accepted(v, ps),
        cycle_reads(v, ps) == ps,
    decreases ps.len(),
{
    if ps.len() > 0 {
        let w = cleared(pushed(v, ps[0]));
        let rest = ps.drop_first();
        assert forall|i: int| 0 <= i < rest.len() implies (#[trigger] rest[i]).len()
            == w.slot_size by {
            assert(rest[i] == ps[i + 1]);
        }
        assert(w.queue =~= Seq::<Block>::empty());
        lemma_wraparound(w, rest);
        assert(seq![ps[0]] + rest =~= ps);
    }
}

proof fn lemma_scan_key(t: Seq<u8>, rest: Seq<u8>, c: Cursor)
    requires
        c.phase == Phase::Key,
        forall|i: int| 0 <= i < t.len() ==> is_token_byte(#[trigger] t[i]),
    ensures
        scan(t + rest, c) == scan(rest, Cursor { key: c.key + t, ..c }),
    decreases t.len(),
{
    if t.len() == 0 {
        assert(t + rest =~= rest);
        assert(c.key + t =~= c.key);
    } else {
        let c1 = Cursor { key: c.key.push(t[0]), ..c };
        assert((t + rest)[0] == t[0]);
        assert((t + rest).drop_first() =~= t.drop_first() + rest);
        lemma_scan_key(t.drop_first(), rest, c1);
        assert(c1.key + t.drop_first() =~= c.key + t);
    }
}

proof fn lemma_scan_value(t: Seq<u8>, rest: Seq<u8>, c: Cursor)
    requires
        c.phase == Phase::Value,
        forall|i: int| 0 <= i < t.len() ==> is_token_byte(#[trigger] t[i]),
    ensures
        scan(t + rest, c) == scan(rest, Cursor { value: c.value + t, ..c }),
    decreases t.len(),
{
    if t.len() == 0 {
        assert(t + rest =~= rest);
        assert(c.value + t =~= c.value);
    } else {
        let c1 = Cursor { value: c.value.push(t[0]), ..c };
        assert((t + rest)[0] == t[0]);
        assert((t + rest).drop_first() =~= t.drop_first() + rest);
        lemma_scan_value(t.drop_first(), rest, c1);
        assert(c1.value + t.drop_first() =~= c.value + t);
    }
}

proof fn lemma_scan_pair(p: (Seq<u8>, Seq<u8>), rest: Seq<u8>, c: Cursor)
    requires
        c.phase == Phase::LineStart,
        is_token(p.0),
        is_token(p.1),
    ensures
        scan(encode_pair(p) + rest, c) == scan(
            rest,
            Cursor { phase: Phase::LineStart, key: seq![], value: seq![], pairs: c.pairs.push(p) },
        ),
{
    let k = p.0;
    let v = p.1;
    let s = encode_pair(p) + rest;
    let after_key = seq![0x20u8] + v + seq![0x0Au8] + rest;
    assert(s[0] == k[0]);
    assert(is_token_byte(k[0]));
    let c1 = Cursor { phase: Phase::Key, key: seq![k[0]], ..c };
    assert(s.drop_first() =~= k.drop_first() + after_key);
    assert forall|i: int| 0 <= i < k.drop_first().len() implies is_token_byte(
        #[trigger] k.drop_first()[i],
    ) by {
        assert(k.drop_first()[i] == k[i + 1]);
    }
    assert(step(c, k[0]) == Some(c1));
    assert(scan(s, c) == scan(s.drop_first(), c1));
    lemma_scan_key(k.drop_first(), after_key, c1);
    let c2 = Cursor { key: c1.key + k.drop_first(), ..c1 };
    assert(c2.key =~= k);
    let after_space = v + seq![0x0Au8] + rest;
    assert(after_key[0] == 0x20u8);
    assert(after_key.drop_first() =~= after_space);
    let c3 = with_phase(c2, Phase::KeySpace);
    assert(step(c2, 0x20u8) == Some(c3));
    assert(scan(after_key, c2) == scan(after_space, c3));
    assert(after_space[0] == v[0]);
    assert(is_token_byte(v[0]));
    let c4 = Cursor { phase: Phase::Value, value: seq![v[0]], ..c3 };
    let after_value = seq![0x0Au8] + rest;
    assert(after_space.drop_first() =~= v.drop_first() + after_value);
    assert forall|i: int| 0 <= i < v.drop_first().len() implies is_token_byte(
        #[trigger] v.drop_first()[i],
    ) by {
        assert(v.drop_first()[i] == v[i + 1]);
    }
    assert(step(c3, v[0]) == Some(c4));
    assert(scan(after_space, c3) == scan(after_space.drop_first(), c4));
    lemma_scan_value(v.drop_first(), after_value, c4);
    let c5 = Cursor { value: c4.value + v.drop_first(), ..c4 };
    assert(c5.value =~= v);
    assert(after_value[0] == 0x0Au8);
    assert(after_value.drop_first() =~= rest);
    assert(step(c5, 0x0Au8) == Some(emit(c5)));
    assert(scan(after_value, c5) == scan(rest, emit(c5)));
    assert(emit(c5) == Cursor {
        phase: Phase::LineStart,
        key: seq![],
        value: seq![],
        pairs: c.pairs.push(p),
    });
}

proof fn lemma_scan_encoded(ps: Seq<(Seq<u8>, Seq<u8>)>, c: Cursor)
    requires
        c.phase == Phase::LineStart,
        forall|i: int| 0 <= i < ps.len() ==> is_token(#[trigger] ps[i].0) && is_token(ps[i].1),
    ensures
        scan(encode_header(ps), c) == Some(c.pairs + ps),
    decreases ps.len(),
{
    if ps.len() == 0 {
        assert(c.pairs + ps =~= c.pairs);
    } else {
        let rest = ps.drop_first();
        assert(is_token(ps[0].0) && is_token(ps[0].1));
        lemma_scan_pair(ps[0], encode_header(rest), c);
        let c2 = Cursor {
            phase: Phase::LineStart,
            key: seq![],
            value: seq![],
            pairs: c.pairs.push(ps[0]),
        };
        assert forall|i: int| 0 <= i < rest.len() implies is_token(#[trigger] rest[i].0)
            && is_token(rest[i].1) by {
            assert(rest[i] == ps[i + 1]);
        }
        lemma_scan_encoded(rest, c2);
        assert(c2.pairs + rest =~= c.pairs + ps);
    }
}

/// Header round trip, on bytes: pairs whose keys and values are tokens decode from their
/// encoding to themselves, in order.
pub proof fn lemma_header_round_trip(ps: Seq<(Seq<u8>, Seq<u8>)>)
    requires
        forall|i: int| 0 <= i < ps.len() ==> is_token(#[trigger] ps[i].0) && is_token(ps[i].1),
    ensures
        parse_header(encode_header(ps)) == Some(ps),
{
    assert(start_cursor().phase == Phase::LineStart);
    lemma_scan_encoded(ps, start_cursor());
    assert(start_cursor().pairs + ps =~= ps);
}

/// Header round trip, on text: for a header with no key twice (a mapping), whose keys and
/// values are tokens in UTF-8, whatever decoding its encoding gives is the header itself.
pub proof fn lemma_header_text_round_trip(
    h: Seq<(Seq<char>, Seq<char>)>,
    r: PsrdadaResult<Vec<(String, String)>>,
)
    requires
        forall|i: int|
            0 <= i < h.len() ==> is_token(encode_utf8(#[trigger] h[i].0)) && is_token(
                encode_utf8(h[i].1),
            ),
        forall|i: int, j: int| 0 <= i < j < h.len() ==> (#[trigger] h[i]).0 != (#[trigger] h[j]).0,
        decodes_to(encode_header(header_bytes(h)), r),
    ensures
        r is Ok,
        header_text(r->Ok_0@) == h,
{
    broadcast use encode_utf8_decode_utf8, encode_utf8_valid_utf8;

    let ps = header_bytes(h);
    assert forall|i: int| 0 <= i < ps.len() implies is_token(#[trigger] ps[i].0) && is_token(
        ps[i].1,
    ) by {
        assert(ps[i] == (encode_utf8(h[i].0), encode_utf8(h[i].1)));
    }
    lemma_header_round_trip(ps);
    assert forall|i: int, j: int| 0 <= i < j < ps.len() implies (#[trigger] ps[i]).0 != (
    #[trigger] ps[j]).0 by {
        assert(ps[i] == (encode_utf8(h[i].0), encode_utf8(h[i].1)));
        assert(ps[j] == (encode_utf8(h[j].0), encode_utf8(h[j].1)));
        assert(decode_utf8(encode_utf8(h[i].0)) == h[i].0);
        assert(decode_utf8(encode_utf8(h[j].0)) == h[j].0);
    }
    lemma_last_wins_of_unique(ps);
    assert forall|i: int| 0 <= i < ps.len() implies valid_utf8(#[trigger] ps[i].0) && valid_utf8(
        ps[i].1,
    ) by {
        assert(ps[i] == (encode_utf8(h[i].0), encode_utf8(h[i].1)));
    }
    let out = r->Ok_0@;
    assert forall|i: int| 0 <= i < h.len() implies #[trigger] header_text(out)[i] == h[i] by {
        assert(ps[i] == (encode_utf8(h[i].0), encode_utf8(h[i].1)));
        assert(out[i].0@ == decode_utf8(ps[i].0));
        assert(out[i].1@ == decode_utf8(ps[i].1));
    }
    assert(header_text(out) =~= h);
}

proof fn lemma_scan_stay(t: Seq<u8>, rest: Seq<u8>, c: Cursor)
    requires
        forall|i: int| 0 <= i < t.len() ==> #[trigger] t[i] != 0u8 && step(c, t[i]) == Some(c),
    ensures
        scan(t + rest, c) == scan(rest, c),
    decreases t.len(),
{
    if t.len() == 0 {
        assert(t + rest =~= rest);
    } else {
        assert((t + rest)[0] == t[0]);
        assert((t + rest).drop_first() =~= t.drop_first() + rest);
        assert forall|i: int| 0 <= i < t.drop_first().len() implies #[trigger] t.drop_first()[i]
            != 0u8 && step(c, t.drop_first()[i]) == Some(c) by {
            assert(t.drop_first()[i] == t[i + 1]);
        }
        lemma_scan_stay(t.drop_first(), rest, c);
    }
}

/// From a value (or the blanks after it): an optional comment and a line end emit the pair.
proof fn lemma_scan_line_end(comment: Seq<u8>, crlf: bool, rest: Seq<u8>, c: Cursor)
    requires
        c.phase == Phase::Value || c.phase == Phase::ValueSpace,
        is_comment(comment),
    ensures
        scan(comment + newline(crlf) + rest, c) == scan(rest, emit(c)),
{
    let s = comment + newline(crlf) + rest;
    if comment.len() == 0 {
        assert(s =~= newline(crlf) + rest);
        if crlf {
            let c1 = with_phase(c, Phase::PairCr);
            assert(s[0] == 0x0Du8);
            assert(step(c, 0x0Du8) == Some(c1));
            assert(scan(s, c) == scan(s.drop_first(), c1));
            assert(s.drop_first()[0] == 0x0Au8);
            assert(s.drop_first().drop_first() =~= rest);
            assert(step(c1, 0x0Au8) == Some(emit(c1)));
            assert(scan(s.drop_first(), c1) == scan(rest, emit(c1)));
            assert(emit(c1) == emit(c));
        } else {
            assert(s[0] == 0x0Au8);
            assert(s.drop_first() =~= rest);
            assert(step(c, 0x0Au8) == Some(emit(c)));
            assert(scan(s, c) == scan(rest, emit(c)));
        }
    } else {
        let c1 = with_phase(c, Phase::Comment);
        assert(s[0] == 0x23u8);
        assert(step(c, 0x23u8) == Some(c1));
        assert(scan(s, c) == scan(s.drop_first(), c1));
        let body = comment.drop_first();
        assert(s.drop_first() =~= body + (newline(crlf) + rest));
        assert forall|i: int| 0 <= i < body.len() implies #[trigger] body[i] != 0u8 && step(
            c1,
            body[i],
        ) == Some(c1) by {
            assert(body[i] == comment[i + 1]);
        }
        lemma_scan_stay(body, newline(crlf) + rest, c1);
        let after = newline(crlf) + rest;
        assert(emit(c1) == emit(c));
        if crlf {
            assert(after[0] == 0x0Du8);
            assert(step(c1, 0x0Du8) == Some(c1));
            assert(scan(after, c1) == scan(after.drop_first(), c1));
            assert(after.drop_first()[0] == 0x0Au8);
            assert(after.drop_first().drop_first() =~= rest);
            assert(step(c1, 0x0Au8) == Some(emit(c1)));
            assert(scan(after.drop_first(), c1) == scan(rest, emit(c1)));
        } else {
            assert(after[0] == 0x0Au8);
            assert(after.drop_first() =~= rest);
            assert(step(c1, 0x0Au8) == Some(emit(c1)));
            assert(scan(after, c1) == scan(rest, emit(c1)));
        }
    }
}

proof fn lemma_scan_line(l: HeaderLine, rest: Seq<u8>, c: Cursor)
    requires
        c.phase == Phase::LineStart,
        line_ok(l),
    ensures
        scan(line_bytes(l) + rest, c) == scan(
            rest,
            match l {
                HeaderLine::Blank { .. } => c,
                HeaderLine::Pair { key, value, .. } => emit(
                    Cursor { key, value, ..c },
                ),
            },
        ),
{
    match l {
        HeaderLine::Blank { crlf } => {
            let s = newline(crlf) + rest;
            assert(line_bytes(l) + rest == s);
            if crlf {
                let c1 = with_phase(c, Phase::BlankCr);
                assert(s[0] == 0x0Du8);
                assert(step(c, 0x0Du8) == Some(c1));
                assert(scan(s, c) == scan(s.drop_first(), c1));
                assert(s.drop_first()[0] == 0x0Au8);
                assert(s.drop_first().drop_first() =~= rest);
                assert(with_phase(c1, Phase::LineStart) == c);
                assert(step(c1, 0x0Au8) == Some(c));
                assert(scan(s.drop_first(), c1) == scan(rest, c));
            } else {
                assert(s[0] == 0x0Au8);
                assert(s.drop_first() =~= rest);
                assert(step(c, 0x0Au8) == Some(c));
                assert(scan(s, c) == scan(rest, c));
            }
        },
        HeaderLine::Pair { key, gap, value, trail, comment, crlf } => {
            let tail = comment + newline(crlf) + rest;
            let after_value = trail + tail;
            let after_gap = value + after_value;
            let after_key = gap + after_gap;
            let s = line_bytes(l) + rest;
            assert(s =~= key + after_key);
            // the key
            let c1 = Cursor { phase: Phase::Key, key: seq![key[0]], ..c };
            assert(s[0] == key[0] && is_token_byte(key[0]));
            assert(step(c, key[0]) == Some(c1));
            assert(scan(s, c) == scan(s.drop_first(), c1));
            assert(s.drop_first() =~= key.drop_first() + after_key);
            assert forall|i: int| 0 <= i < key.drop_first().len() implies is_token_byte(
                #[trigger] key.drop_first()[i],
            ) by {
                assert(key.drop_first()[i] == key[i + 1]);
            }
            lemma_scan_key(key.drop_first(), after_key, c1);
            let c2 = Cursor { key: c1.key + key.drop_first(), ..c1 };
            assert(c2.key =~= key);
            // the gap
            let c3 = with_phase(c2, Phase::KeySpace);
            assert(after_key[0] == gap[0] && is_space(gap[0]));
            assert(step(c2, gap[0]) == Some(c3));
            assert(scan(after_key, c2) == scan(after_key.drop_first(), c3));
            assert(after_key.drop_first() =~= gap.drop_first() + after_gap);
            assert forall|i: int| 0 <= i < gap.drop_first().len() implies #[trigger] gap.drop_first()[i]
                != 0u8 && step(c3, gap.drop_first()[i]) == Some(c3) by {
                assert(gap.drop_first()[i] == gap[i + 1]);
                assert(is_space(gap[i + 1]));
            }
            lemma_scan_stay(gap.drop_first(), after_gap, c3);
            // the value
            let c4 = Cursor { phase: Phase::Value, value: seq![value[0]], ..c3 };
            assert(after_gap[0] == value[0] && is_token_byte(value[0]));
            assert(step(c3, value[0]) == Some(c4));
            assert(scan(after_gap, c3) == scan(after_gap.drop_first(), c4));
            assert(after_gap.drop_first() =~= value.drop_first() + after_value);
            assert forall|i: int| 0 <= i < value.drop_first().len() implies is_token_byte(
                #[trigger] value.drop_first()[i],
            ) by {
                assert(value.drop_first()[i] == value[i + 1]);
            }
            lemma_scan_value(value.drop_first(), after_value, c4);
            let c5 = Cursor { value: c4.value + value.drop_first(), ..c4 };
            assert(c5.value =~= value);
            // the blanks after the value, the comment and the line end
            if trail.len() == 0 {
                assert(after_value =~= tail);
                lemma_scan_line_end(comment, crlf, rest, c5);
                assert(emit(c5) == emit(Cursor { key, value, ..c }));
            } else {
                let c6 = with_phase(c5, Phase::ValueSpace);
                assert(after_value[0] == trail[0] && is_space(trail[0]));
                assert(step(c5, trail[0]) == Some(c6));
                assert(scan(after_value, c5) == scan(after_value.drop_first(), c6));
                assert(after_value.drop_first() =~= trail.drop_first() + tail);
                assert forall|i: int| 0 <= i < trail.drop_first().len() implies #[trigger] trail.drop_first()[i]
                    != 0u8 && step(c6, trail.drop_first()[i]) == Some(c6) by {
                    assert(trail.drop_first()[i] == trail[i + 1]);
                    assert(is_space(trail[i + 1]));
                }
                lemma_scan_stay(trail.drop_first(), tail, c6);
                lemma_scan_line_end(comment, crlf, rest, c6);
                assert(emit(c6) == emit(Cursor { key, value, ..c }));
            }
        },
    }
}

proof fn lemma_scan_lines(ls: Seq<HeaderLine>, rest: Seq<u8>, c: Cursor)
    requires
        c.phase == Phase::LineStart,
        forall|i: int| 0 <= i < ls.len() ==> line_ok(#[trigger] ls[i]),
    ensures
        scan(lines_bytes(ls) + rest, c) == scan(
            rest,
            Cursor { pairs: c.pairs + lines_pairs(ls), ..c },
        ) || (lines_pairs(ls).len() > 0 && scan(lines_bytes(ls) + rest, c) == scan(
            rest,
            Cursor {
                phase: Phase::LineStart,
                key: seq![],
                value: seq![],
                pairs: c.pairs + lines_pairs(ls),
            },
        )),
    decreases ls.len(),
{
    if ls.len() == 0 {
        assert(lines_bytes(ls) + rest =~= rest);
        assert(c.pairs + lines_pairs(ls) =~= c.pairs);
        assert(Cursor { pairs: c.pairs + lines_pairs(ls), ..c } == c);
    } else {
        let l = ls[0];
        let more = ls.drop_first();
        assert(lines_bytes(ls) + rest =~= line_bytes(l) + (lines_bytes(more) + rest));
        assert(line_ok(l));
        lemma_scan_line(l, lines_bytes(more) + rest, c);
        assert forall|i: int| 0 <= i < more.len() implies line_ok(#[trigger] more[i]) by {
            assert(more[i] == ls[i + 1]);
        }
        match l {
            HeaderLine::Blank { .. } => {
                lemma_scan_lines(more, rest, c);
            },
            HeaderLine::Pair { key, value, .. } => {
                let c2 = emit(Cursor { key, value, ..c });
                lemma_scan_lines(more, rest, c2);
                assert(c2.pairs + lines_pairs(more) =~= c.pairs + lines_pairs(ls));
            },
        }
    }
}

/// The grammar, read whole: a header written as lines of the grammar (blank lines, and pairs
/// with any blanks and comments, each line ended by LF or CR LF), then nothing or a NUL and
/// anything after it, decodes to exactly the pairs of its lines, in order.
pub proof fn lemma_header_lines(ls: Seq<HeaderLine>, rest: Seq<u8>)
    requires
        forall|i: int| 0 <= i < ls.len() ==> line_ok(#[trigger] ls[i]),
        rest.len() == 0 || rest[0] == 0u8,
    ensures
        parse_header(lines_bytes(ls) + rest) == Some(lines_pairs(ls)),
{
    lemma_scan_lines(ls, rest, start_cursor());
    assert(start_cursor().pairs + lines_pairs(ls) =~= lines_pairs(ls));
}

} // verus!
