//! Messages as they are framed for gRPC.
use vstd::prelude::*;

verus! {

/// A number in four bytes, the most significant first.
pub open spec fn big_endian(n: nat) -> Seq<u8> {
    seq![
        (n / 0x100_0000 % 0x100) as u8,
        (n / 0x1_0000 % 0x100) as u8,
        (n / 0x100 % 0x100) as u8,
        (n % 0x100) as u8,
    ]
}

/// A message as it is sent: a byte that says that it is not compressed, its length, and the message.
pub open spec fn framed(message: Seq<u8>) -> Seq<u8> {
    seq![0u8] + big_endian(message.len()) + message
}

/// The message in a frame: what follows the byte for the compression and the length. `None` where
/// the frame is too short to hold these.
pub open spec fn unframed(frame: Seq<u8>) -> Option<Seq<u8>> {
    if frame.len() < 5 {
        None
    } else {
        Some(frame.skip(5))
    }
}

/// Frames a message.
pub fn frame(message: &[u8]) -> (res: Vec<u8>)
    requires
        message@.len() <= u32::MAX,
    ensures
        res@ == framed(message@),
{
    let n: usize = message.len();
    let mut res: Vec<u8> = Vec::new();
    res.push(0);
    res.push((n / 0x100_0000 % 0x100) as u8);
    res.push((n / 0x1_0000 % 0x100) as u8);
    res.push((n / 0x100 % 0x100) as u8);
    res.push((n % 0x100) as u8);
    res.extend_from_slice(message);
    proof {
        assert(res@ =~= framed(message@));
    }
    res
}

/// Takes the message out of a frame.
pub fn unframe(frame: &[u8]) -> (res: Option<Vec<u8>>)
    ensures
        unframed(frame@) == match res {
            Some(message) => Some(message@),
            None => None,
        },
{
    if frame.len() < 5 {
        return None;
    }
    let mut message: Vec<u8> = Vec::new();
    for i in 5..frame.len()
        invariant
            frame@.len() >= 5,
            message@ == frame@.subrange(5, i as int),
    {
        message.push(frame[i]);
        proof {
            assert(frame@.subrange(5, i + 1) =~= frame@.subrange(5, i as int).push(frame@[i as int]));
        }
    }
    proof {
        assert(frame@.subrange(5, frame@.len() as int) =~= frame@.skip(5));
    }
    Some(message)
}

/// A frame gives back the message that was put into it.
pub proof fn law_frame_gives_back(message: Seq<u8>)
    ensures
        unframed(framed(message)) == Some(message),
{
    assert(framed(message).skip(5) =~= message);
}

/// A frame is five bytes longer than its message. It says that the message is not compressed, and its
/// next four bytes, the most significant first, give the length of the message, which follows.
pub proof fn law_frame_tells_the_length(message: Seq<u8>)
    requires
        message.len() <= u32::MAX,
    ensures
        framed(message).len() == message.len() + 5,
        framed(message)[0] == 0,
        framed(message)[1] as int * 0x100_0000 + framed(message)[2] as int * 0x1_0000 + framed(
            message,
        )[3] as int * 0x100 + framed(message)[4] as int == message.len(),
        framed(message).skip(5) == message,
{
    law_frame_gives_back(message);
    assert(framed(message).skip(5) =~= message);
    let n = message.len();
    assert(n / 0x100_0000 % 0x100 == n / 0x100_0000) by (nonlinear_arith)
        requires
            n <= u32::MAX,
    ;
}

/// What is no longer than the front of a frame holds no message; of anything longer, all that follows
/// the front is the message.
pub proof fn law_message_follows_the_front(front: Seq<u8>, message: Seq<u8>)
    requires
        front.len() <= 5,
    ensures
        front.len() < 5 ==> unframed(front) is None,
        front.len() == 5 ==> unframed(front + message) == Some(message),
{
    if front.len() == 5 {
        assert((front + message).skip(5) =~= message);
    }
}

} // verus!
