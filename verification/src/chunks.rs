//! The layout of a layer payload: a sequence of chunks, each of which stands
//! for one run of pixels.
//!
//! The first byte of a chunk is `aabbcccc`. The top two bits `aa` tell what
//! the chunk is:
//!
//! * `00`: black pixels (value 0),
//! * `01`: gray pixels, whose value is the next byte,
//! * `10`: pixels whose value is given as a distance of at most 15 from the
//!   value of the run before,
//! * `11`: white pixels (value 255).
//!
//! In the three literal kinds `bb` says how many more bytes hold the length:
//! `cccc` are its low four bits, and each further byte holds eight more,
//! the most significant first, so that a chunk holds a length below 2^28. In
//! a distance chunk the head is `10sfdddd`: `s` is set where the distance is
//! subtracted, `f` is set where one more byte holds the length (otherwise the
//! length is 1), and `dddd` is the distance.

use crate::misc::{
    expand, last_value, lemma_expand_concat, lemma_runs_of, runs_of, total_length, Run,
};
use vstd::prelude::*;

verus! {

/// The longest run that one literal chunk can hold.
pub const MAX_LITERAL_RUN: u64 = 0xFFF_FFFF;

/// The longest run that one distance chunk can hold.
pub const MAX_DELTA_RUN: u64 = 0xFF;

/// The largest distance that a distance chunk can hold.
pub const MAX_DELTA: u8 = 15;

/// The top two bits of a head byte.
pub open spec fn kind(head: u8) -> int {
    head as int / 64
}

/// Bits 5 and 4 of a head byte.
pub open spec fn size_class(head: u8) -> int {
    head as int / 16 % 4
}

/// The low four bits of a head byte.
pub open spec fn low_bits(head: u8) -> int {
    head as int % 16
}

/// `color + distance`, wrapped into a byte.
pub open spec fn wrapping_up(color: u8, distance: int) -> u8 {
    if color + distance > 255 {
        (color + distance - 256) as u8
    } else {
        (color + distance) as u8
    }
}

/// `color - distance`, wrapped into a byte.
pub open spec fn wrapping_down(color: u8, distance: int) -> u8 {
    if color - distance < 0 {
        (color - distance + 256) as u8
    } else {
        (color - distance) as u8
    }
}

/// The number of bytes of a chunk whose first byte is `head`.
pub open spec fn head_len(head: u8) -> nat {
    if kind(head) == 2 {
        if size_class(head) % 2 == 1 {
            2
        } else {
            1
        }
    } else if kind(head) == 1 {
        (2 + size_class(head)) as nat
    } else {
        (1 + size_class(head)) as nat
    }
}

/// The number of bytes of the chunk at the start of `data`.
pub open spec fn chunk_len(data: Seq<u8>) -> nat {
    head_len(data[0])
}

/// The pixel value of the chunk at the start of `data`, where the run before
/// it had the value `color`. A distance is added or subtracted modulo 256.
pub open spec fn chunk_value(data: Seq<u8>, color: u8) -> u8 {
    let head = data[0];
    if kind(head) == 0 {
        0
    } else if kind(head) == 1 {
        data[1]
    } else if kind(head) == 2 {
        if size_class(head) / 2 == 1 {
            wrapping_down(color, low_bits(head))
        } else {
            wrapping_up(color, low_bits(head))
        }
    } else {
        255
    }
}

/// The run length of the chunk at the start of `data`.
pub open spec fn chunk_length(data: Seq<u8>) -> u64 {
    let head = data[0];
    if kind(head) == 2 {
        if size_class(head) % 2 == 1 {
            data[1] as u64
        } else {
            1
        }
    } else {
        let at: int = if kind(head) == 1 {
            2
        } else {
            1
        };
        if size_class(head) == 0 {
            low_bits(head) as u64
        } else if size_class(head) == 1 {
            (low_bits(head) + data[at] * 0x10) as u64
        } else if size_class(head) == 2 {
            (low_bits(head) + data[at] * 0x1000 + data[at + 1] * 0x10) as u64
        } else {
            (low_bits(head) + data[at] * 0x10_0000 + data[at + 1] * 0x1000 + data[at + 2]
                * 0x10) as u64
        }
    }
}

/// The run that the chunk at the start of `data` stands for.
pub open spec fn chunk_run(data: Seq<u8>, color: u8) -> Run {
    Run { length: chunk_length(data), value: chunk_value(data, color) }
}

/// Whether `data` is a sequence of chunks with nothing cut off or left over.
pub open spec fn whole_chunks(data: Seq<u8>) -> bool
    decreases data.len(),
{
    data.len() == 0 || (chunk_len(data) <= data.len() && whole_chunks(
        data.skip(chunk_len(data) as int),
    ))
}

/// The runs that the chunks of `data` stand for, where the run before them
/// had the value `color`. Decoding stops in front of a chunk that is cut off.
pub open spec fn decode(data: Seq<u8>, color: u8) -> Seq<Run>
    decreases data.len(),
{
    if data.len() == 0 || chunk_len(data) > data.len() {
        Seq::empty()
    } else {
        seq![chunk_run(data, color)] + decode(
            data.skip(chunk_len(data) as int),
            chunk_value(data, color),
        )
    }
}

/// The value of the last run of `data`, or `color` where `data` holds none.
pub open spec fn color_after(data: Seq<u8>, color: u8) -> u8
    decreases data.len(),
{
    if data.len() == 0 || chunk_len(data) > data.len() {
        color
    } else {
        color_after(data.skip(chunk_len(data) as int), chunk_value(data, color))
    }
}

/// The kinds of the chunks of `data`, in order.
pub open spec fn chunk_kinds(data: Seq<u8>) -> Seq<int>
    decreases data.len(),
{
    if data.len() == 0 || chunk_len(data) > data.len() {
        Seq::empty()
    } else {
        seq![kind(data[0])] + chunk_kinds(data.skip(chunk_len(data) as int))
    }
}

/// The kind of chunk that holds a literal value: black, white or gray.
pub open spec fn literal_kind(value: u8) -> int {
    if value == 0 {
        0
    } else if value == 255 {
        3
    } else {
        1
    }
}

/// The number of bytes beyond the head that the length of a literal chunk
/// takes.
pub open spec fn literal_size_class(length: u64) -> int {
    if length < 0x10 {
        0
    } else if length < 0x1000 {
        1
    } else if length < 0x10_0000 {
        2
    } else {
        3
    }
}

/// The literal chunk for a run of `length` pixels of `value`, where
/// `length` is at most [`MAX_LITERAL_RUN`].
pub open spec fn literal_chunk(length: u64, value: u8) -> Seq<u8> {
    let head = (literal_kind(value) * 64 + literal_size_class(length) * 16 + length % 16) as u8;
    let color = if literal_kind(value) == 1 {
        seq![value]
    } else {
        Seq::<u8>::empty()
    };
    let rest = if literal_size_class(length) == 0 {
        Seq::<u8>::empty()
    } else if literal_size_class(length) == 1 {
        seq![(length / 0x10) as u8]
    } else if literal_size_class(length) == 2 {
        seq![(length / 0x1000) as u8, (length / 0x10 % 0x100) as u8]
    } else {
        seq![
            (length / 0x10_0000) as u8,
            (length / 0x1000 % 0x100) as u8,
            (length / 0x10 % 0x100) as u8,
        ]
    };
    seq![head] + color + rest
}

/// The distance chunk for a run of `length` pixels of `value` behind a run of
/// the value `last`, where `length` is at most [`MAX_DELTA_RUN`] and the two
/// values are at most [`MAX_DELTA`] apart.
pub open spec fn delta_chunk(last: u8, length: u64, value: u8) -> Seq<u8> {
    let sign: int = if value < last {
        1
    } else {
        0
    };
    let distance: int = if value < last {
        last - value
    } else {
        value - last
    };
    if length == 1 {
        seq![(128 + sign * 32 + distance) as u8]
    } else {
        seq![(128 + sign * 32 + 16 + distance) as u8, length as u8]
    }
}

/// Whether a run of `value` is written as a distance from `last`: it is
/// neither black nor white, something has been written before it, and the
/// two values are at most [`MAX_DELTA`] apart.
pub open spec fn delta_eligible(fresh: bool, last: u8, value: u8) -> bool {
    &&& value != 0
    &&& value != 255
    &&& !fresh
    &&& -15 <= value - last <= 15
}

/// The bytes that stand for a run of `length` pixels of `value`. `fresh`
/// tells that nothing has been written yet, `last` is the value of the run
/// before. A run too long for one chunk is split: a full chunk first, then
/// the rest in the same way.
pub open spec fn encode_run(fresh: bool, last: u8, length: u64, value: u8) -> Seq<u8>
    decreases length,
{
    if delta_eligible(fresh, last, value) {
        if length > MAX_DELTA_RUN {
            delta_chunk(last, MAX_DELTA_RUN, value) + encode_run(
                false,
                value,
                (length - MAX_DELTA_RUN) as u64,
                value,
            )
        } else {
            delta_chunk(last, length, value)
        }
    } else {
        if length > MAX_LITERAL_RUN {
            literal_chunk(MAX_LITERAL_RUN, value) + encode_run(
                false,
                value,
                (length - MAX_LITERAL_RUN) as u64,
                value,
            )
        } else {
            literal_chunk(length, value)
        }
    }
}

/// The payload that stands for a sequence of runs, written one after the
/// other into an empty buffer.
pub open spec fn payload(runs: Seq<Run>) -> Seq<u8>
    decreases runs.len(),
{
    if runs.len() == 0 {
        Seq::empty()
    } else {
        let before = payload(runs.drop_last());
        before + encode_run(
            before.len() == 0,
            last_value(runs.drop_last()),
            runs.last().length,
            runs.last().value,
        )
    }
}

/// `count` pixels of `value`.
pub open spec fn solid(count: nat, value: u8) -> Seq<u8> {
    Seq::new(count, |i: int| value)
}

/// A literal chunk reads back as the run it was written for, whatever
/// follows it and whatever came before it.
pub proof fn lemma_literal_chunk(length: u64, value: u8, rest: Seq<u8>, color: u8)
    requires
        length <= MAX_LITERAL_RUN,
    ensures
        literal_chunk(length, value).len() >= 1,
        chunk_len(literal_chunk(length, value) + rest) == literal_chunk(length, value).len(),
        chunk_run(literal_chunk(length, value) + rest, color) == (Run { length, value }),
        kind((literal_chunk(length, value) + rest)[0]) == literal_kind(value),
{
    let c = literal_chunk(length, value);
    let d = c + rest;
    let k = literal_kind(value);
    let z = literal_size_class(length);
    let head = (k * 64 + z * 16 + length % 16) as u8;
    assert(0 <= k * 64 + z * 16 + length % 16 < 256);
    assert(d[0] == head);
    assert(kind(head) == k);
    assert(size_class(head) == z);
    assert(low_bits(head) == length % 16);
    let at: int = if k == 1 {
        2
    } else {
        1
    };
    if k == 1 {
        assert(d[1] == value);
    }
    if z == 1 {
        assert(d[at] == (length / 0x10) as u8);
    } else if z == 2 {
        assert(d[at] == (length / 0x1000) as u8);
        assert(d[at + 1] == (length / 0x10 % 0x100) as u8);
    } else if z == 3 {
        assert(d[at] == (length / 0x10_0000) as u8);
        assert(d[at + 1] == (length / 0x1000 % 0x100) as u8);
        assert(d[at + 2] == (length / 0x10 % 0x100) as u8);
    }
    assert(chunk_length(d) == length);
}

/// A distance chunk reads back as the run it was written for, whatever
/// follows it, where the run before it had the value it was measured from.
pub proof fn lemma_delta_chunk(last: u8, length: u64, value: u8, rest: Seq<u8>)
    requires
        length <= MAX_DELTA_RUN,
        -15 <= value - last <= 15,
    ensures
        delta_chunk(last, length, value).len() >= 1,
        chunk_len(delta_chunk(last, length, value) + rest) == delta_chunk(
            last,
            length,
            value,
        ).len(),
        chunk_run(delta_chunk(last, length, value) + rest, last) == (Run { length, value }),
        kind((delta_chunk(last, length, value) + rest)[0]) == 2,
{
    let c = delta_chunk(last, length, value);
    let d = c + rest;
    assert(d[0] == c[0]);
    if length != 1 {
        assert(d[1] == c[1]);
    }
}

/// Where `a` is made of whole chunks, what follows it is read as if it
/// stood alone, behind a run of the last value of `a`.
pub proof fn lemma_decode_concat(a: Seq<u8>, b: Seq<u8>, color: u8)
    requires
        whole_chunks(a),
    ensures
        whole_chunks(a + b) == whole_chunks(b),
        decode(a + b, color) == decode(a, color) + decode(b, color_after(a, color)),
        color_after(a + b, color) == color_after(b, color_after(a, color)),
        chunk_kinds(a + b) == chunk_kinds(a) + chunk_kinds(b),
    decreases a.len(),
{
    if a.len() == 0 {
        assert(a + b =~= b);
        assert(decode(a, color) + decode(b, color) =~= decode(b, color));
        assert(chunk_kinds(a) + chunk_kinds(b) =~= chunk_kinds(b));
    } else {
        let n = chunk_len(a) as int;
        let d = a + b;
        assert(d[0] == a[0]);
        assert(chunk_len(d) == n);
        assert(n >= 2 ==> d[1] == a[1]);
        assert(n >= 3 ==> d[2] == a[2]);
        assert(n >= 4 ==> d[3] == a[3]);
        assert(n >= 5 ==> d[4] == a[4]);
        assert(chunk_run(d, color) == chunk_run(a, color));
        assert(d.skip(n) =~= a.skip(n) + b);
        let next = chunk_value(a, color);
        lemma_decode_concat(a.skip(n), b, next);
        assert(decode(d, color) =~= decode(a, color) + decode(b, color_after(a, color)));
        assert(chunk_kinds(d) =~= chunk_kinds(a) + chunk_kinds(b));
    }
}

/// One chunk alone is a whole payload of one run.
proof fn lemma_one_chunk(c: Seq<u8>, color: u8)
    requires
        c.len() >= 1,
        chunk_len(c) == c.len(),
    ensures
        whole_chunks(c),
        decode(c, color) == seq![chunk_run(c, color)],
        color_after(c, color) == chunk_value(c, color),
        chunk_kinds(c) == seq![kind(c[0])],
{
    let n = chunk_len(c) as int;
    assert(c.skip(n) =~= Seq::<u8>::empty());
    assert(whole_chunks(c.skip(n)));
    assert(decode(c.skip(n), chunk_value(c, color)) =~= Seq::<Run>::empty());
    assert(chunk_kinds(c.skip(n)) =~= Seq::<int>::empty());
    assert(color_after(c.skip(n), chunk_value(c, color)) == chunk_value(c, color));
    assert(decode(c, color) =~= seq![chunk_run(c, color)]);
    assert(chunk_kinds(c) =~= seq![kind(c[0])]);
}

/// The bytes written for a run are whole chunks that read back as pixels of
/// the run's value, as many as the run is long. A black or white run is made
/// of literal chunks only; a run that is written as a distance is made of
/// distance chunks only; any other run starts with a gray chunk.
pub proof fn lemma_encode_run(fresh: bool, last: u8, length: u64, value: u8)
    ensures
        encode_run(fresh, last, length, value).len() >= 1,
        whole_chunks(encode_run(fresh, last, length, value)),
        color_after(encode_run(fresh, last, length, value), last) == value,
        expand(decode(encode_run(fresh, last, length, value), last)) == solid(length as nat, value),
        total_length(decode(encode_run(fresh, last, length, value), last)) == length,
        chunk_kinds(encode_run(fresh, last, length, value)).len() >= 1,
        chunk_kinds(encode_run(fresh, last, length, value))[0] == (if delta_eligible(
            fresh,
            last,
            value,
        ) {
            2
        } else {
            literal_kind(value)
        }),
        value == 0 || value == 255 ==> forall|i: int|
            0 <= i < chunk_kinds(encode_run(fresh, last, length, value)).len()
                ==> #[trigger] chunk_kinds(encode_run(fresh, last, length, value))[i]
                == literal_kind(value),
        delta_eligible(fresh, last, value) ==> forall|i: int|
            0 <= i < chunk_kinds(encode_run(fresh, last, length, value)).len()
                ==> #[trigger] chunk_kinds(encode_run(fresh, last, length, value))[i] == 2,
    decreases length,
{
    let e = encode_run(fresh, last, length, value);
    let eligible = delta_eligible(fresh, last, value);
    let limit = if eligible {
        MAX_DELTA_RUN
    } else {
        MAX_LITERAL_RUN
    };
    let first = if length > limit {
        limit
    } else {
        length
    };
    let c = if eligible {
        delta_chunk(last, first, value)
    } else {
        literal_chunk(first, value)
    };
    let none = Seq::<u8>::empty();
    assert(c + none =~= c);
    if eligible {
        lemma_delta_chunk(last, first, value, none);
    } else {
        lemma_literal_chunk(first, value, none, last);
    }
    lemma_one_chunk(c, last);
    let run = Run { length: first, value };
    assert(decode(c, last) == seq![run]);
    assert(seq![run].drop_last() =~= Seq::<Run>::empty());
    assert(expand(Seq::<Run>::empty()) =~= Seq::<u8>::empty());
    assert(total_length(Seq::<Run>::empty()) == 0);
    assert(expand(seq![run]) =~= solid(first as nat, value));
    assert(total_length(seq![run]) == first);
    if length > limit {
        let more = (length - limit) as u64;
        let tail = encode_run(false, value, more, value);
        assert(e == c + tail);
        lemma_encode_run(false, value, more, value);
        lemma_decode_concat(c, tail, last);
        lemma_expand_concat(decode(c, last), decode(tail, value));
        assert(solid(first as nat, value) + solid(more as nat, value) =~= solid(
            length as nat,
            value,
        ));
        assert(delta_eligible(false, value, value) == (value != 0 && value != 255));
    } else {
        assert(e == c);
    }
}

/// The payload written for a sequence of runs is made of whole chunks and
/// reads back as the same pixels. The runs themselves may come back split.
pub proof fn lemma_payload(runs: Seq<Run>)
    ensures
        whole_chunks(payload(runs)),
        color_after(payload(runs), 0) == last_value(runs),
        expand(decode(payload(runs), 0)) == expand(runs),
        total_length(decode(payload(runs), 0)) == total_length(runs),
        runs.len() > 0 ==> payload(runs).len() > 0,
    decreases runs.len(),
{
    if runs.len() > 0 {
        let head = runs.drop_last();
        let r = runs.last();
        let before = payload(head);
        lemma_payload(head);
        let e = encode_run(before.len() == 0, last_value(head), r.length, r.value);
        lemma_encode_run(before.len() == 0, last_value(head), r.length, r.value);
        lemma_decode_concat(before, e, 0);
        lemma_expand_concat(decode(before, 0), decode(e, last_value(head)));
    }
}

/// Encoding a picture and decoding the result gives the picture back, pixel
/// for pixel, and the decoded runs cover exactly as many pixels as the
/// picture has.
pub proof fn lemma_round_trip(pixels: Seq<u8>)
    requires
        pixels.len() <= u64::MAX,
    ensures
        whole_chunks(payload(runs_of(pixels))),
        expand(decode(payload(runs_of(pixels)), 0)) == pixels,
        total_length(decode(payload(runs_of(pixels)), 0)) == pixels.len(),
{
    lemma_runs_of(pixels);
    lemma_payload(runs_of(pixels));
}

/// What one more run adds to a payload: its own bytes, written after the
/// value of the run before it, or as the first ones where there is none.
pub proof fn lemma_added_run(runs: Seq<Run>, run: Run)
    ensures
        payload(runs.push(run)) == payload(runs) + encode_run(
            runs.len() == 0,
            last_value(runs),
            run.length,
            run.value,
        ),
{
    lemma_payload(runs);
    assert(runs.push(run).drop_last() =~= runs);
    if runs.len() == 0 {
        assert(payload(runs) =~= Seq::<u8>::empty());
    }
}

/// A black or a white run is written as literal chunks only (their top
/// bits are `00` for black and `11` for white), and as the same bytes
/// whatever was written before it.
pub proof fn lemma_black_and_white_are_literal(fresh: bool, last: u8, length: u64, value: u8)
    requires
        value == 0 || value == 255,
    ensures
        encode_run(fresh, last, length, value) == encode_run(true, 0, length, value),
        forall|i: int|
            0 <= i < chunk_kinds(encode_run(fresh, last, length, value)).len()
                ==> #[trigger] chunk_kinds(encode_run(fresh, last, length, value))[i] == (if value
                == 0 {
                0int
            } else {
                3int
            }),
    decreases length,
{
    lemma_encode_run(fresh, last, length, value);
    if length > MAX_LITERAL_RUN {
        let more = (length - MAX_LITERAL_RUN) as u64;
        lemma_black_and_white_are_literal(false, value, more, value);
    }
}

/// A run that is neither black nor white, behind a run whose value is at
/// most 15 away, is written as distance chunks only (top bits `10`).
pub proof fn lemma_near_values_are_deltas(last: u8, length: u64, value: u8)
    requires
        value != 0,
        value != 255,
        -15 <= value - last <= 15,
    ensures
        forall|i: int|
            0 <= i < chunk_kinds(encode_run(false, last, length, value)).len()
                ==> #[trigger] chunk_kinds(encode_run(false, last, length, value))[i] == 2,
{
    lemma_encode_run(false, last, length, value);
}

/// A run that is neither black nor white, and is the first one or stands
/// behind a run whose value is more than 15 away, starts with a gray chunk
/// (top bits `01`) that holds its value.
pub proof fn lemma_far_values_are_literal(fresh: bool, last: u8, length: u64, value: u8)
    requires
        value != 0,
        value != 255,
        fresh || value - last > 15 || last - value > 15,
    ensures
        chunk_kinds(encode_run(fresh, last, length, value)).len() >= 1,
        chunk_kinds(encode_run(fresh, last, length, value))[0] == 1,
        encode_run(fresh, last, length, value).len() >= 2,
        encode_run(fresh, last, length, value)[1] == value,
{
    lemma_encode_run(fresh, last, length, value);
    let first = if length > MAX_LITERAL_RUN {
        MAX_LITERAL_RUN
    } else {
        length
    };
    lemma_literal_chunk(first, value, Seq::<u8>::empty(), last);
    assert(literal_chunk(first, value)[1] == value);
}

/// Runs of at most 255 pixels each come back one for one: none of them is
/// split, whichever kind of chunk it is written as.
pub proof fn lemma_short_runs_come_back(runs: Seq<Run>)
    requires
        forall|i: int| 0 <= i < runs.len() ==> (#[trigger] runs[i]).length <= MAX_DELTA_RUN,
    ensures
        decode(payload(runs), 0) == runs,
    decreases runs.len(),
{
    if runs.len() == 0 {
        assert(decode(payload(runs), 0) =~= runs);
    } else {
        let head = runs.drop_last();
        let run = runs.last();
        let before = payload(head);
        let fresh = before.len() == 0;
        let last = last_value(head);
        assert forall|i: int| 0 <= i < head.len() implies (#[trigger] head[i]).length
            <= MAX_DELTA_RUN by {
            assert(head[i] == runs[i]);
        }
        lemma_short_runs_come_back(head);
        lemma_payload(head);
        let e = encode_run(fresh, last, run.length, run.value);
        let none = Seq::<u8>::empty();
        assert(e + none =~= e);
        if delta_eligible(fresh, last, run.value) {
            lemma_delta_chunk(last, run.length, run.value, none);
        } else {
            lemma_literal_chunk(run.length, run.value, none, last);
        }
        lemma_one_chunk(e, last);
        lemma_decode_concat(before, e, 0);
        assert(head + seq![run] =~= runs);
    }
}

} // verus!
