//! Shares of a layout: single-precision numbers by their bits. What they add up
//! to and how they divide is asked of the program around the library; how they
//! compare is not.

use crate::ask;
use crate::ask::{FloatOp, Query, QueryView, Replies, Reply, ReplySeq, ReplyView};
use vstd::prelude::*;

verus! {

/// A single-precision number.
#[derive(Clone, Copy, Debug, PartialEq, Eq, Structural)]
pub struct Share {
    pub bits: u32,
}

/// Nothing.
pub const ZERO: u32 = 0;

/// One half.
pub const HALF: u32 = 0x3f00_0000;

/// One.
pub const ONE: u32 = 0x3f80_0000;

/// Two.
pub const TWO: u32 = 0x4000_0000;

/// One hundredth: how far apart two centers must be to count as beside each
/// other.
pub const HUNDREDTH: u32 = 0x3c23_d70a;

/// One twentieth: the least that a pane keeps of a split.
pub const TWENTIETH: u32 = 0x3d4c_cccd;

impl Share {
    /// The number without its sign, as bits.
    pub open spec fn magnitude(self) -> int {
        if self.bits >= 0x8000_0000 {
            self.bits - 0x8000_0000
        } else {
            self.bits as int
        }
    }

    /// Is it no number at all?
    pub open spec fn nan(self) -> bool {
        self.magnitude() > 0x7f80_0000
    }

    /// An integer that orders the numbers.
    pub open spec fn rank(self) -> int {
        if self.bits >= 0x8000_0000 {
            -self.magnitude()
        } else {
            self.magnitude()
        }
    }

    /// Is it less than another? What is no number compares with nothing.
    pub open spec fn below(self, other: Share) -> bool {
        !self.nan() && !other.nan() && self.rank() < other.rank()
    }

    fn order_key(&self) -> (r: i64)
        ensures
            r == self.rank(),
    {
        if self.bits >= 0x8000_0000 {
            -((self.bits - 0x8000_0000) as i64)
        } else {
            self.bits as i64
        }
    }

    pub fn is_nan(&self) -> (r: bool)
        ensures
            r == self.nan(),
    {
        if self.bits >= 0x8000_0000 {
            self.bits - 0x8000_0000 > 0x7f80_0000
        } else {
            self.bits > 0x7f80_0000
        }
    }

    pub fn less(&self, other: &Share) -> (r: bool)
        ensures
            r == self.below(*other),
    {
        !self.is_nan() && !other.is_nan() && self.order_key() < other.order_key()
    }
}

/// The result of an operation, or the query for it.
pub open spec fn computed(op: FloatOp, a: Share, b: Share, replies: ReplySeq) -> Result<
    Share,
    QueryView,
> {
    match ask::reply_to(replies, QueryView::Share(op, a, b)) {
        Some(ReplyView::Share(x)) => Ok(x),
        _ => Err(QueryView::Share(op, a, b)),
    }
}

/// A share, or the query that is needed for it.
pub open spec fn share_result(r: Result<Share, Query>) -> Result<Share, QueryView> {
    match r {
        Ok(x) => Ok(x),
        Err(q) => Err(q@),
    }
}

pub fn compute(op: FloatOp, a: Share, b: Share, replies: &Replies) -> (r: Result<Share, Query>)
    ensures
        share_result(r) == computed(op, a, b, replies@),
{
    let query = Query::Share(op, a, b);
    match replies.find(&query) {
        Some(Reply::Share(x)) => Ok(*x),
        _ => Err(query),
    }
}

} // verus!
