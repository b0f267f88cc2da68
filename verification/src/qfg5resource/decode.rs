//! The run-length codec shared by the image formats.
use vstd::prelude::*;

verus! {

/// The byte stream that `input` stands for. A control byte of 1 to 127
/// repeats the next byte that many times; one of 128 to 255 is followed by
/// `256 - control` literal bytes; a zero is passed over. Input that ends
/// inside a run yields what is there: a repeat without its value yields
/// nothing, a literal run its remaining bytes.
pub open spec fn rle_expand(input: Seq<u8>) -> Seq<u8>
    decreases input.len(),
{
    if input.len() == 0 {
        Seq::empty()
    } else {
        let control = input[0] as int;
        if control == 0 {
            rle_expand(input.skip(1))
        } else if control < 128 {
            if input.len() < 2 {
                Seq::empty()
            } else {
                Seq::new(control as nat, |i: int| input[1]) + rle_expand(input.skip(2))
            }
        } else {
            let n = 256 - control;
            if input.len() - 1 < n {
                input.skip(1)
            } else {
                input.subrange(1, 1 + n) + rle_expand(input.skip(1 + n))
            }
        }
    }
}

/// `stream` laid over the start of `before`: the first `before.len()` bytes
/// of the stream, and behind a shorter stream what `before` held there.
pub open spec fn overlay(before: Seq<u8>, stream: Seq<u8>) -> Seq<u8> {
    if stream.len() >= before.len() {
        stream.take(before.len() as int)
    } else {
        stream + before.skip(stream.len() as int)
    }
}

/// What a buffer that held `before` holds after `input` was decoded into it.
pub open spec fn rle_output(before: Seq<u8>, input: Seq<u8>) -> Seq<u8> {
    overlay(before, rle_expand(input))
}

/// Decodes `data` into `output`. Decoding stops when the buffer is full;
/// where the input ends first, the rest of the buffer keeps what it held.
pub fn decode_rle(data: &[u8], output: &mut [u8])
    ensures
        final(output)@ == rle_output(old(output)@, data@),
{
    let ghost before = output@;
    let ghost mut produced: Seq<u8> = Seq::empty();
    let mut output_index: usize = 0;
    let mut n: usize = 0;
    assert(data@.skip(0) =~= data@);
    assert(output@ =~= overlay(before, produced));
    while n < data.len() && output_index < output.len()
        invariant
            before == old(output)@,
            n <= data.len(),
            output@.len() == before.len(),
            output_index == if produced.len() < before.len() {
                produced.len()
            } else {
                before.len()
            },
            output@ == overlay(before, produced),
            rle_expand(data@) == produced + rle_expand(data@.skip(n as int)),
        decreases data.len() - n,
    {
        let ghost rest = data@.skip(n as int);
        let count = data[n] as usize;
        assert(rest[0] == data@[n as int]);
        if count == 0 {
            assert(rest.skip(1) =~= data@.skip(n + 1));
            n += 1;
        } else if count < 128 {
            if data.len() - n < 2 {
                assert(produced + Seq::<u8>::empty() =~= produced);
                n = data.len();
                assert(data@.skip(n as int) =~= Seq::<u8>::empty());
            } else {
                let value = data[n + 1];
                assert(rest[1] == value);
                let ghost run = Seq::new(count as nat, |i: int| value);
                assert(run =~= Seq::new(count as nat, |i: int| rest[1]));
                let mut k: usize = 0;
                assert(produced + run.take(0) =~= produced);
                while k < count && output_index < output.len()
                    invariant
                        k <= count,
                        run.len() == count,
                        forall|i: int| 0 <= i < count ==> run[i] == value,
                        output@.len() == before.len(),
                        output_index == if (produced + run.take(k as int)).len() < before.len() {
                            (produced + run.take(k as int)).len()
                        } else {
                            before.len()
                        },
                        output@ == overlay(before, produced + run.take(k as int)),
                    decreases count - k,
                {
                    output[output_index] = value;
                    assert(output@ =~= overlay(before, produced + run.take(k + 1)));
                    output_index += 1;
                    k += 1;
                }
                assert(output@ =~= overlay(before, produced + run));
                proof {
                    assert(rest.skip(2) =~= data@.skip(n + 2));
                    assert(produced + (run + rle_expand(rest.skip(2))) =~= (produced + run)
                        + rle_expand(rest.skip(2)));
                    produced = produced + run;
                }
                n += 2;
            }
        } else {
            let count = 256 - count;
            let avail = data.len() - n - 1;
            let take = if avail < count {
                avail
            } else {
                count
            };
            let ghost run = rest.subrange(1, 1 + take);
            let mut j: usize = 0;
            assert(produced + run.take(0) =~= produced);
            while j < take && output_index < output.len()
                invariant
                    j <= take,
                    run.len() == take,
                    n + 1 + take <= data.len(),
                    forall|i: int| 0 <= i < take ==> run[i] == data@[n + 1 + i],
                    output@.len() == before.len(),
                    output_index == if (produced + run.take(j as int)).len() < before.len() {
                        (produced + run.take(j as int)).len()
                    } else {
                        before.len()
                    },
                    output@ == overlay(before, produced + run.take(j as int)),
                decreases take - j,
            {
                output[output_index] = data[n + 1 + j];
                assert(output@ =~= overlay(before, produced + run.take(j + 1)));
                output_index += 1;
                j += 1;
            }
            assert(output@ =~= overlay(before, produced + run));
            proof {
                if avail < count {
                    assert(run =~= rest.skip(1));
                    assert(data@.skip(n + 1 + take) =~= Seq::<u8>::empty());
                    assert(produced + run + rle_expand(Seq::<u8>::empty()) =~= produced + run);
                } else {
                    assert(rest.skip(1 + count) =~= data@.skip(n + 1 + take));
                    assert(produced + (run + rle_expand(rest.skip(1 + count))) =~= (produced + run)
                        + rle_expand(rest.skip(1 + count)));
                }
                produced = produced + run;
            }
            n += take + 1;
        }
    }
    proof {
        if n == data.len() {
            assert(data@.skip(n as int) =~= Seq::<u8>::empty());
            assert(produced + Seq::<u8>::empty() =~= produced);
        } else {
            let rest = rle_expand(data@.skip(n as int));
            assert((produced + rest).take(before.len() as int) =~= produced.take(
                before.len() as int,
            ));
        }
    }
}

/// `n` zero bytes.
pub open spec fn zeros(n: nat) -> Seq<u8> {
    Seq::new(n, |i: int| 0u8)
}

/// Decodes `data` into a fresh buffer of `size` zero bytes.
pub fn decode_rle_pixels(data: &[u8], size: usize) -> (pixels: Vec<u8>)
    ensures
        pixels@ == rle_output(zeros(size as nat), data@),
        pixels@.len() == size,
{
    let mut pixels = vec![0u8; size];
    assert(pixels@ =~= zeros(size as nat));
    decode_rle(data, pixels.as_mut_slice());
    pixels
}

/// The encoding of `bytes`, 1 to 128 of them, as one literal run.
pub open spec fn literal_run(bytes: Seq<u8>) -> Seq<u8> {
    seq![(256 - bytes.len()) as u8] + bytes
}

/// The encoding of `chunks` as one literal run each.
pub open spec fn literal_runs(chunks: Seq<Seq<u8>>) -> Seq<u8>
    decreases chunks.len(),
{
    if chunks.len() == 0 {
        Seq::empty()
    } else {
        literal_run(chunks[0]) + literal_runs(chunks.skip(1))
    }
}

/// The bytes of `chunks`, one chunk after the other.
pub open spec fn joined(chunks: Seq<Seq<u8>>) -> Seq<u8>
    decreases chunks.len(),
{
    if chunks.len() == 0 {
        Seq::empty()
    } else {
        chunks[0] + joined(chunks.skip(1))
    }
}

/// The encoding of `count` copies of `value`, `count` from 1 to 127, as one
/// repeat run.
pub open spec fn repeat_run(count: u8, value: u8) -> Seq<u8> {
    seq![count, value]
}

/// Literal runs stand for the bytes they were made from.
pub proof fn lemma_literal_runs_expand(chunks: Seq<Seq<u8>>)
    requires
        forall|i: int| 0 <= i < chunks.len() ==> 1 <= #[trigger] chunks[i].len() <= 128,
    ensures
        rle_expand(literal_runs(chunks)) == joined(chunks),
    decreases chunks.len(),
{
    if chunks.len() > 0 {
        let first = chunks[0];
        let tail = literal_runs(chunks.skip(1));
        let input = literal_runs(chunks);
        assert(chunks[0].len() >= 1);
        assert forall|i: int| 0 <= i < chunks.skip(1).len() implies 1 <= #[trigger] chunks.skip(
            1,
        )[i].len() <= 128 by {
            assert(chunks.skip(1)[i] == chunks[i + 1]);
        }
        lemma_literal_runs_expand(chunks.skip(1));
        assert(input[0] == (256 - first.len()) as u8);
        assert(input.subrange(1, 1 + first.len() as int) =~= first);
        assert(input.skip(1 + first.len() as int) =~= tail);
    }
}

/// Decoding a literal-run encoding into a buffer of the length of the
/// encoded bytes reproduces those bytes.
pub proof fn lemma_literal_runs_decode(chunks: Seq<Seq<u8>>, before: Seq<u8>)
    requires
        forall|i: int| 0 <= i < chunks.len() ==> 1 <= #[trigger] chunks[i].len() <= 128,
        before.len() == joined(chunks).len(),
    ensures
        rle_output(before, literal_runs(chunks)) == joined(chunks),
{
    lemma_literal_runs_expand(chunks);
    assert(joined(chunks).take(before.len() as int) =~= joined(chunks));
}

/// A repeat run stands for `count` copies of its value.
pub proof fn lemma_repeat_run_expand(count: u8, value: u8)
    requires
        1 <= count <= 127,
    ensures
        rle_expand(repeat_run(count, value)) == Seq::new(count as nat, |i: int| value),
{
    let input = repeat_run(count, value);
    assert(input.skip(2) =~= Seq::<u8>::empty());
    assert(rle_expand(input.skip(2)) =~= Seq::<u8>::empty());
    assert(Seq::new(count as nat, |i: int| input[1]) + Seq::<u8>::empty() =~= Seq::new(
        count as nat,
        |i: int| value,
    ));
}

/// Decoding a repeat run into a buffer of `count` bytes fills it with
/// `count` copies of the value.
pub proof fn lemma_repeat_run_decode(count: u8, value: u8, before: Seq<u8>)
    requires
        1 <= count <= 127,
        before.len() == count,
    ensures
        rle_output(before, repeat_run(count, value)) == Seq::new(count as nat, |i: int| value),
{
    lemma_repeat_run_expand(count, value);
    let run = Seq::new(count as nat, |i: int| value);
    assert(run.take(before.len() as int) =~= run);
}

} // verus!
