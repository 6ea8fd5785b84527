use vstd::prelude::*;

verus! {

/// Largest payload, in bytes, that one frame may carry.
pub const MAX_PAYLOAD: usize = 65535;

/// The closed set of message types, each with its fixed byte on the wire.
#[derive(Debug, Clone, Copy, PartialEq, Eq, Structural)]
pub enum MyPeerMsgTag {
    Choke,
    Unchoke,
    Interested,
    NotInterested,
    Have,
    Bitfield,
    Request,
    Piece,
    Cancel,
    Port,
    Extended,
}

impl MyPeerMsgTag {
    /// The byte that stands for this tag on the wire.
    pub open spec fn byte(self) -> u8 {
        match self {
            MyPeerMsgTag::Choke => 0,
            MyPeerMsgTag::Unchoke => 1,
            MyPeerMsgTag::Interested => 2,
            MyPeerMsgTag::NotInterested => 3,
            MyPeerMsgTag::Have => 4,
            MyPeerMsgTag::Bitfield => 5,
            MyPeerMsgTag::Request => 6,
            MyPeerMsgTag::Piece => 7,
            MyPeerMsgTag::Cancel => 8,
            MyPeerMsgTag::Port => 9,
            MyPeerMsgTag::Extended => 20,
        }
    }

    /// The tag that a wire byte stands for, if any.
    pub open spec fn of_byte(b: u8) -> Option<MyPeerMsgTag> {
        if b == 0 {
            Some(MyPeerMsgTag::Choke)
        } else if b == 1 {
            Some(MyPeerMsgTag::Unchoke)
        } else if b == 2 {
            Some(MyPeerMsgTag::Interested)
        } else if b == 3 {
            Some(MyPeerMsgTag::NotInterested)
        } else if b == 4 {
            Some(MyPeerMsgTag::Have)
        } else if b == 5 {
            Some(MyPeerMsgTag::Bitfield)
        } else if b == 6 {
            Some(MyPeerMsgTag::Request)
        } else if b == 7 {
            Some(MyPeerMsgTag::Piece)
        } else if b == 8 {
            Some(MyPeerMsgTag::Cancel)
        } else if b == 9 {
            Some(MyPeerMsgTag::Port)
        } else if b == 20 {
            Some(MyPeerMsgTag::Extended)
        } else {
            None
        }
    }

    /// Every tag is recovered from its own byte, and a byte that names a tag is
    /// that tag's byte.
    pub proof fn tag_byte_round_trip(t: MyPeerMsgTag, b: u8)
        ensures
            Self::of_byte(t.byte()) == Some(t),
            Self::of_byte(b) matches Some(u) ==> u.byte() == b,
    {
    }

    pub fn to_u8(self) -> (b: u8)
        ensures
            b == self.byte(),
    {
        match self {
            MyPeerMsgTag::Choke => 0,
            MyPeerMsgTag::Unchoke => 1,
            MyPeerMsgTag::Interested => 2,
            MyPeerMsgTag::NotInterested => 3,
            MyPeerMsgTag::Have => 4,
            MyPeerMsgTag::Bitfield => 5,
            MyPeerMsgTag::Request => 6,
            MyPeerMsgTag::Piece => 7,
            MyPeerMsgTag::Cancel => 8,
            MyPeerMsgTag::Port => 9,
            MyPeerMsgTag::Extended => 20,
        }
    }

    /// `None` exactly for the bytes that name no tag.
    pub fn from_u8(b: u8) -> (t: Option<MyPeerMsgTag>)
        ensures
            t == Self::of_byte(b),
    {
        match b {
            0 => Some(MyPeerMsgTag::Choke),
            1 => Some(MyPeerMsgTag::Unchoke),
            2 => Some(MyPeerMsgTag::Interested),
            3 => Some(MyPeerMsgTag::NotInterested),
            4 => Some(MyPeerMsgTag::Have),
            5 => Some(MyPeerMsgTag::Bitfield),
            6 => Some(MyPeerMsgTag::Request),
            7 => Some(MyPeerMsgTag::Piece),
            8 => Some(MyPeerMsgTag::Cancel),
            9 => Some(MyPeerMsgTag::Port),
            20 => Some(MyPeerMsgTag::Extended),
            _ => None,
        }
    }
}

/// One protocol message: a tag and the bytes that belong to it.
#[derive(Debug, Clone, PartialEq, Eq)]
pub struct MyPeerMsg {
    pub tag: MyPeerMsgTag,
    pub payload: Vec<u8>,
}

/// A message as a mathematical value.
pub ghost struct PeerMsgView {
    pub tag: MyPeerMsgTag,
    pub payload: Seq<u8>,
}

impl View for MyPeerMsg {
    type V = PeerMsgView;

    open spec fn view(&self) -> PeerMsgView {
        PeerMsgView { tag: self.tag, payload: self.payload@ }
    }
}

impl MyPeerMsg {
    /// A message fits the wire format when its payload is within the limit.
    pub open spec fn fits(&self) -> bool {
        self.payload@.len() <= MAX_PAYLOAD
    }
}

} // verus!
