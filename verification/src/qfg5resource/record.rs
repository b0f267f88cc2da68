//! Records of a fixed layout, and runs of them.
use crate::qfg5resource::cursor::Cursor;
use crate::qfg5resource::error::DecodeError;
use crate::qfg5resource::parse::{lemma_many_fails, parse_many};
use vstd::prelude::*;

verus! {

/// A value that is stored as a run of bytes and read in one step.
pub trait Record: Sized {
    /// The record stored at `pos` and the position behind it, or why there
    /// is none.
    spec fn at(data: Seq<u8>, pos: int) -> Result<(Self, int), DecodeError>;

    /// Reads the record at the cursor.
    fn read(cursor: &mut Cursor) -> (r: Result<Self, DecodeError>)
        ensures
            final(cursor).data == old(cursor).data,
            match r {
                Ok(x) => Self::at(old(cursor).data@, old(cursor).pos as int) == Ok::<
                    _,
                    DecodeError,
                >((x, final(cursor).pos as int)),
                Err(e) => Self::at(old(cursor).data@, old(cursor).pos as int) == Err::<
                    (Self, int),
                    _,
                >(e),
            },
    ;
}

/// [`Record::at`] as a reader of `data`.
pub open spec fn record_reader<R: Record>(data: Seq<u8>) -> spec_fn(int) -> Result<
    (R, int),
    DecodeError,
> {
    |p: int| R::at(data, p)
}

/// The `n` consecutive records stored from `pos` on.
pub open spec fn records_at<R: Record>(data: Seq<u8>, pos: int, n: nat) -> Result<
    (Seq<R>, int),
    DecodeError,
> {
    parse_many(record_reader::<R>(data), pos, n)
}

/// A record of which every stored value is accepted: whether it can be read
/// depends on the length of the buffer only.
pub trait PlainRecord: Record {
    proof fn lemma_length_decides(a: Seq<u8>, b: Seq<u8>, pos: int)
        requires
            a.len() == b.len(),
        ensures
            Self::at(a, pos) is Ok <==> Self::at(b, pos) is Ok,
            Self::at(a, pos) is Ok ==> Self::at(a, pos)->Ok_0.1 == Self::at(b, pos)->Ok_0.1,
    ;
}

/// Whether a run of plain records can be read depends on the length of the
/// buffer only.
pub proof fn lemma_records_at_length_decides<R: PlainRecord>(
    a: Seq<u8>,
    b: Seq<u8>,
    pos: int,
    n: nat,
)
    requires
        a.len() == b.len(),
    ensures
        records_at::<R>(a, pos, n) is Ok <==> records_at::<R>(b, pos, n) is Ok,
        records_at::<R>(a, pos, n) is Ok ==> records_at::<R>(a, pos, n)->Ok_0.1 == records_at::<R>(
            b,
            pos,
            n,
        )->Ok_0.1,
    decreases n,
{
    if n > 0 {
        lemma_records_at_length_decides::<R>(a, b, pos, (n - 1) as nat);
        let before = records_at::<R>(a, pos, (n - 1) as nat);
        if before is Ok {
            R::lemma_length_decides(a, b, before->Ok_0.1);
        }
    }
}

/// Reads `n` consecutive records.
pub fn read_records<R: Record>(cursor: &mut Cursor, n: usize) -> (r: Result<Vec<R>, DecodeError>)
    ensures
        final(cursor).data == old(cursor).data,
        match r {
            Ok(v) => records_at::<R>(old(cursor).data@, old(cursor).pos as int, n as nat) == Ok::<
                _,
                DecodeError,
            >((v@, final(cursor).pos as int)) && v@.len() == n,
            Err(e) => records_at::<R>(old(cursor).data@, old(cursor).pos as int, n as nat) == Err::<
                (Seq<R>, int),
                _,
            >(e),
        },
{
    let ghost data = cursor.data@;
    let ghost start = cursor.pos as int;
    let mut records: Vec<R> = Vec::new();
    let mut i: usize = 0;
    while i < n
        invariant
            i <= n,
            data == old(cursor).data@,
            start == old(cursor).pos,
            cursor.data == old(cursor).data,
            records@.len() == i,
            records_at::<R>(data, start, i as nat) == Ok::<_, DecodeError>(
                (records@, cursor.pos as int),
            ),
        decreases n - i,
    {
        match R::read(cursor) {
            Ok(x) => {
                records.push(x);
            },
            Err(e) => {
                proof {
                    lemma_many_fails(record_reader::<R>(data), start, (i + 1) as nat, n as nat);
                }
                return Err(e);
            },
        }
        i = i + 1;
    }
    Ok(records)
}

} // verus!
