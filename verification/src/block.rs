//! Putting together a block that has nothing but its header.

use crate::types::{Block, Bytes};
use vstd::prelude::*;

verus! {

/// An RLP encoder of the `rlp` crate.
#[verifier::external_type_specification]
#[verifier::external_body]
pub struct ExRlpStream(rlp::RlpStream);

/// What a stream that encodes one list holds: how many items the list still lacks,
/// and the encodings of the items appended so far, one after the other. `None` for
/// a stream that holds anything but one list.
pub uninterp spec fn stream_list(stream: rlp::RlpStream) -> Option<(nat, Seq<u8>)>;

/// How many items the list of a stream still lacks.
pub open spec fn lacking(stream: rlp::RlpStream) -> nat {
    stream_list(stream).unwrap().0
}

/// The encodings of the items in the list of a stream.
pub open spec fn items(stream: rlp::RlpStream) -> Seq<u8> {
    stream_list(stream).unwrap().1
}

/// The bytes of a number, most significant first, without leading zeros.
pub open spec fn big_endian(n: nat) -> Seq<u8>
    decreases n,
{
    if n == 0 {
        Seq::empty()
    } else {
        big_endian(n / 256).push((n % 256) as u8)
    }
}

/// The bytes that stand in front of a list whose items take up `len` bytes. A list
/// of more than 55 bytes gives its length in at most four bytes: what exceeds 32
/// bits is cut off.
pub open spec fn list_prefix(len: nat) -> Seq<u8> {
    if len <= 55 {
        seq![(0xc0 + len) as u8]
    } else {
        let size = big_endian(len % 0x1_0000_0000);
        seq![(0xf7 + size.len()) as u8] + size
    }
}

/// The RLP encoding of a list, given the encodings of its items.
pub open spec fn rlp_list(items: Seq<u8>) -> Seq<u8> {
    list_prefix(items.len()) + items
}

/// The RLP encoding of a block with the given header, no transactions and no
/// uncles: a list of the header and two empty lists.
pub open spec fn headed_block(header: Seq<u8>) -> Seq<u8> {
    rlp_list(header + rlp_list(Seq::empty()) + rlp_list(Seq::empty()))
}

/// The number that some bytes stand for, most significant first.
pub open spec fn number(bytes: Seq<u8>) -> nat
    decreases bytes.len(),
{
    if bytes.len() == 0 {
        0
    } else {
        number(bytes.drop_last()) * 256 + bytes.last() as nat
    }
}

/// The bytes of a number stand for that number, there is no leading zero, and a number below
/// the `k`-th power of 256 takes at most `k` bytes.
proof fn lemma_big_endian(n: nat, k: nat)
    ensures
        number(big_endian(n)) == n,
        n > 0 ==> big_endian(n).len() > 0 && big_endian(n)[0] != 0,
        n < vstd::arithmetic::power::pow(256, k) ==> big_endian(n).len() <= k,
    decreases n,
{
    if n > 0 {
        let (rest, bytes) = (big_endian(n / 256), big_endian(n));
        assert(bytes.drop_last() =~= rest);
        assert(bytes.last() == (n % 256) as u8);
        if k > 0 {
            lemma_big_endian(n / 256, (k - 1) as nat);
            assert(vstd::arithmetic::power::pow(256, k) == 256 * vstd::arithmetic::power::pow(
                256,
                (k - 1) as nat,
            )) by {
                reveal(vstd::arithmetic::power::pow);
            }
        } else {
            lemma_big_endian(n / 256, 0);
            assert(vstd::arithmetic::power::pow(256, 0) == 1) by {
                reveal(vstd::arithmetic::power::pow);
            }
        }
        if n / 256 > 0 {
            assert(bytes[0] == rest[0]);
        }
    } else {
        assert(vstd::arithmetic::power::pow(256, 0) == 1) by {
            reveal(vstd::arithmetic::power::pow);
        }
    }
}

/// The block of a header alone ends with the header and two empty lists. In front stands what
/// they take up: in one byte, counted from 0xc0, if that is at most 55; otherwise in as few bytes
/// as it needs, most significant first, behind one byte that gives how many these are, counted
/// from 0xf7. What exceeds 32 bits is cut off.
pub proof fn law_a_headed_block_reads_back(header: Seq<u8>)
    ensures
        ({
            let content = header.push(0xc0).push(0xc0);
            let bytes = headed_block(header);
            let size = bytes.len() - content.len();
            &&& content.len() <= 55 ==> size == 1 && bytes[0] == 0xc0 + content.len()
                && bytes.skip(1) == content
            &&& content.len() > 55 ==> {
                &&& 1 <= size <= 5
                &&& bytes[0] == 0xf7 + (size - 1)
                &&& size > 1 ==> bytes[1] != 0
                &&& number(bytes.subrange(1, size)) == content.len() % 0x1_0000_0000
                &&& bytes.skip(size) == content
            }
        }),
{
    let content = header.push(0xc0).push(0xc0);
    let bytes = headed_block(header);
    assert(rlp_list(Seq::empty()) =~= seq![0xc0u8]);
    assert(header + rlp_list(Seq::empty()) + rlp_list(Seq::empty()) =~= content);
    let len = content.len();
    if len <= 55 {
        assert(bytes.skip(1) =~= content);
    } else {
        let cut = len % 0x1_0000_0000;
        let size = big_endian(cut);
        assert(vstd::arithmetic::power::pow(256, 4) == 0x1_0000_0000) by {
            reveal_with_fuel(vstd::arithmetic::power::pow, 5);
        }
        lemma_big_endian(cut, 4);
        assert(bytes.subrange(1, 1 + size.len() as int) =~= size);
        if cut > 0 {
            assert(bytes[1] == size[0]);
        }
        assert(bytes.skip(1 + size.len() as int) =~= content);
    }
}

/// `rlp::RlpStream::new_list`: a stream that encodes a list of `len` items, none of
/// which is there yet.
#[verifier::external_body]
fn stream_new_list(len: usize) -> (stream: rlp::RlpStream)
    ensures
        stream_list(stream) == Some((len as nat, Seq::<u8>::empty())),
{
    rlp::RlpStream::new_list(len)
}

/// `rlp::RlpStream::append_raw`: appends bytes that encode `item_count` items. The
/// stream panics if the list lacks fewer.
#[verifier::external_body]
fn stream_append_raw(stream: &mut rlp::RlpStream, bytes: &[u8], item_count: usize)
    requires
        stream_list(*old(stream)) is Some,
        1 <= item_count <= lacking(*old(stream)),
    ensures
        stream_list(*final(stream)) == Some(
            ((lacking(*old(stream)) - item_count) as nat, items(*old(stream)) + bytes@),
        ),
{
    stream.append_raw(bytes, item_count);
}

/// `rlp::RlpStream::begin_list`, for a list without items: appends the encoding of
/// the empty list, which counts as one item. The stream panics if the list lacks
/// none.
#[verifier::external_body]
fn stream_begin_list(stream: &mut rlp::RlpStream, len: usize)
    requires
        len == 0,
        stream_list(*old(stream)) is Some,
        1 <= lacking(*old(stream)),
    ensures
        stream_list(*final(stream)) == Some(
            ((lacking(*old(stream)) - 1) as nat, items(*old(stream)).push(0xc0)),
        ),
{
    stream.begin_list(len);
}

/// `rlp::RlpStream::out`: the encoding of the list. The stream panics if the list
/// still lacks items.
#[verifier::external_body]
fn stream_out(stream: rlp::RlpStream) -> (bytes: Bytes)
    requires
        stream_list(stream) is Some,
        lacking(stream) == 0,
    ensures
        bytes@ == rlp_list(items(stream)),
{
    stream.out()
}

/// Puts together the block that consists of the given header alone.
pub fn empty_block(header: &Bytes) -> (block: Block)
    ensures
        block.0@ == headed_block(header@),
{
    let mut stream = stream_new_list(3);
    stream_append_raw(&mut stream, header.as_slice(), 1);
    stream_begin_list(&mut stream, 0);
    stream_begin_list(&mut stream, 0);
    proof {
        assert(rlp_list(Seq::empty()) =~= seq![0xc0u8]);
        assert(Seq::empty() + header@ + seq![0xc0u8] + seq![0xc0u8] =~= (Seq::empty()
            + header@).push(0xc0).push(0xc0));
        assert(Seq::empty() + header@ =~= header@);
    }
    Block(stream_out(stream))
}

} // verus!
