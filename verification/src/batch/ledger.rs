//! The integer KV-block ledger admission is decided on.
use vstd::prelude::*;
use vstd::string::StringExecFns;
use crate::budget::{context_detail, context_detail_text, Ceiling};
use crate::generate::DecodeError;
use crate::text::{decimal, decimal_chars};

verus! {

/// Blocks that `positions` positions occupy: rounded up, and at least one.
pub open spec fn blocks_needed(positions: int, block_size: int) -> int {
    if positions <= 0 {
        1
    } else {
        (positions + block_size - 1) / block_size
    }
}

/// What a request and the two ceilings cost in KV bytes.
#[derive(Clone, Copy, Debug, PartialEq, Eq, Structural)]
pub struct Prices {
    /// The request's own positions.
    pub request: u64,
    /// As many positions as one request may ask for.
    pub context_limit: u64,
    /// As many positions as the whole budget holds.
    pub device_limit: u64,
}

/// The ledger: how many blocks there are, and how many are free.
#[derive(Debug)]
pub struct BlockBudget {
    block_size: usize,
    max_context: Option<usize>,
    total: Option<usize>,
    free: usize,
    rejected_too_large: u64,
    rejected_context_length: u64,
}

/// What the refusal of a request larger than the whole budget says.
pub open spec fn device_detail(blocks: int, positions: int, block_size: int, total: int) -> Seq<char> {
    "request needs "@ + decimal_chars(blocks as nat) + " KV blocks ("@ + decimal_chars(positions as nat)
        + " token positions at "@ + decimal_chars(block_size as nat)
        + " per block) but this server's whole KV budget is "@ + decimal_chars(total as nat)
        + " blocks; an idle server would refuse it identically"@
}

impl BlockBudget {
    /// Positions per block.
    pub closed spec fn size(&self) -> int {
        self.block_size as int
    }

    /// Positions one request may ask for.
    pub closed spec fn context(&self) -> Option<usize> {
        self.max_context
    }

    /// Blocks in the budget, when there is one.
    pub closed spec fn blocks(&self) -> Option<usize> {
        self.total
    }

    /// Blocks not reserved.
    pub closed spec fn unreserved(&self) -> int {
        self.free as int
    }

    /// Requests refused for exceeding the whole budget.
    pub closed spec fn too_large(&self) -> u64 {
        self.rejected_too_large
    }

    /// Requests refused for exceeding the context ceiling.
    pub closed spec fn too_long(&self) -> u64 {
        self.rejected_context_length
    }

    /// No more blocks are free than there are.
    pub closed spec fn wf(&self) -> bool {
        &&& self.block_size > 0
        &&& self.total is Some ==> self.free <= self.total->0
        &&& self.total is None ==> self.free == 0
    }

    /// Everything but the free count and the refusal counters is the same.
    pub open spec fn same_limits(&self, other: &BlockBudget) -> bool {
        &&& self.size() == other.size()
        &&& self.context() == other.context()
        &&& self.blocks() == other.blocks()
    }

    /// Blocks reserved by work in flight.
    pub open spec fn reserved(&self) -> int {
        match self.blocks() {
            Some(total) => total - self.unreserved(),
            None => 0,
        }
    }

    /// `blocks` can be taken now.
    pub open spec fn has_room(&self, blocks: int) -> bool {
        self.blocks() is None || blocks <= self.unreserved()
    }

    /// The blocks that are free once `blocks` have been given back. No more
    /// comes free than there is.
    pub open spec fn given_back(&self, blocks: int) -> int {
        match self.blocks() {
            Some(total) => if self.unreserved() + blocks <= total {
                self.unreserved() + blocks
            } else {
                total as int
            },
            None => self.unreserved(),
        }
    }

    /// The reserved and the free blocks are the whole budget.
    pub proof fn law_blocks_are_accounted_for(&self)
        requires
            self.wf(),
        ensures
            self.unreserved() >= 0,
            self.reserved() >= 0,
            self.size() > 0,
            self.blocks() is Some ==> self.reserved() + self.unreserved() == self.blocks()->0,
            self.blocks() is None ==> self.unreserved() == 0,
    {
    }

    /// A budget with everything free.
    pub fn new(block_size: usize, total: Option<usize>, max_context: Option<usize>) -> (b: BlockBudget)
        requires
            block_size > 0,
        ensures
            b.wf(),
            b.size() == block_size,
            b.context() == max_context,
            b.blocks() == total,
            b.reserved() == 0,
            b.too_large() == 0,
            b.too_long() == 0,
    {
        let free: usize = match total {
            Some(t) => t,
            None => 0,
        };
        BlockBudget { block_size, max_context, total, free, rejected_too_large: 0, rejected_context_length: 0 }
    }

    /// Blocks a sequence of `positions` tokens occupies.
    pub fn blocks_for(&self, positions: usize) -> (n: usize)
        requires
            self.wf(),
        ensures
            n == blocks_needed(positions as int, self.size()),
            n >= 1,
            n <= positions || positions == 0,
    {
        if positions == 0 {
            return 1;
        }
        let whole: usize = (positions - 1) / self.block_size;
        proof {
            let (p, s) = (positions as int, self.block_size as int);
            vstd::arithmetic::div_mod::lemma_div_plus_one(p - 1, s);
            assert((p - 1) / s + 1 == (p - 1 + s) / s);
            assert(whole <= p - 1) by (nonlinear_arith)
                requires
                    whole == (p - 1) / s,
                    p >= 1,
                    s >= 1,
            ;
        }
        whole + 1
    }

    /// The typed refusal for a request of `positions` tokens, or `None`
    /// when no immovable ceiling binds. The context ceiling is checked
    /// first: it is the request's own size.
    pub fn immovable_refusal(&mut self, positions: usize, prices: Prices) -> (r: Option<DecodeError>)
        requires
            old(self).wf(),
            old(self).blocks() is Some ==> old(self).blocks()->0 * old(self).size() <= usize::MAX,
        ensures
            final(self).wf(),
            final(self).same_limits(old(self)),
            final(self).unreserved() == old(self).unreserved(),
            ({
                let too_long = old(self).context() is Some && positions > old(self).context()->0;
                let too_large = old(self).blocks() is Some && blocks_needed(positions as int, old(self).size())
                    > old(self).blocks()->0;
                &&& r is Some <==> too_long || too_large
                &&& final(self).too_long() == if too_long {
                    old(self).too_long().wrapping_add(1)
                } else {
                    old(self).too_long()
                }
                &&& final(self).too_large() == if !too_long && too_large {
                    old(self).too_large().wrapping_add(1)
                } else {
                    old(self).too_large()
                }
                &&& too_long ==> is_budget_refusal(
                    r->0,
                    "context_length_exceeded"@,
                    prices.request,
                    prices.context_limit,
                    positions as int,
                    old(self).context()->0 as int,
                    context_detail(positions as int, old(self).context()->0 as int),
                )
                &&& !too_long && too_large ==> is_budget_refusal(
                    r->0,
                    "device_memory_budget_exceeded"@,
                    prices.request,
                    prices.device_limit,
                    positions as int,
                    old(self).blocks()->0 * old(self).size(),
                    device_detail(
                        blocks_needed(positions as int, old(self).size()),
                        positions as int,
                        old(self).size(),
                        old(self).blocks()->0 as int,
                    ),
                )
            }),
    {
        if let Some(limit) = self.max_context {
            if positions > limit {
                self.rejected_context_length = self.rejected_context_length.wrapping_add(1);
                return Some(
                    DecodeError::KvBudgetExceeded {
                        binding: Ceiling::ContextLength.code(),
                        estimated_bytes: prices.request,
                        limit_bytes: prices.context_limit,
                        positions,
                        positions_limit: limit,
                        detail: context_detail_text(positions, limit),
                    },
                );
            }
        }
        let total: usize = match self.total {
            Some(t) => t,
            None => return None,
        };
        let blocks: usize = self.blocks_for(positions);
        if blocks <= total {
            return None;
        }
        self.rejected_too_large = self.rejected_too_large.wrapping_add(1);
        let mut detail: String = "request needs ".to_owned();
        detail.append(decimal(blocks as u64).as_str());
        detail.append(" KV blocks (");
        detail.append(decimal(positions as u64).as_str());
        detail.append(" token positions at ");
        detail.append(decimal(self.block_size as u64).as_str());
        detail.append(" per block) but this server's whole KV budget is ");
        detail.append(decimal(total as u64).as_str());
        detail.append(" blocks; an idle server would refuse it identically");
        Some(
            DecodeError::KvBudgetExceeded {
                binding: Ceiling::DeviceMemory.code(),
                estimated_bytes: prices.request,
                limit_bytes: prices.device_limit,
                positions,
                positions_limit: total * self.block_size,
                detail,
            },
        )
    }

    /// Takes `blocks` if they are there.
    pub fn try_reserve(&mut self, blocks: usize) -> (r: bool)
        requires
            old(self).wf(),
        ensures
            final(self).wf(),
            final(self).same_limits(old(self)),
            final(self).too_large() == old(self).too_large(),
            final(self).too_long() == old(self).too_long(),
            r == old(self).has_room(blocks as int),
            final(self).unreserved() == if r && old(self).blocks() is Some {
                old(self).unreserved() - blocks
            } else {
                old(self).unreserved()
            },
    {
        if self.total.is_none() {
            return true;
        }
        if blocks > self.free {
            return false;
        }
        self.free = self.free - blocks;
        true
    }

    /// Gives `blocks` back when a request ends, however it ends. No more
    /// comes free than there is.
    pub fn release(&mut self, blocks: usize)
        requires
            old(self).wf(),
        ensures
            final(self).wf(),
            final(self).same_limits(old(self)),
            final(self).too_large() == old(self).too_large(),
            final(self).too_long() == old(self).too_long(),
            final(self).unreserved() == old(self).given_back(blocks as int),
    {
        if let Some(total) = self.total {
            self.free = if blocks <= total - self.free {
                self.free + blocks
            } else {
                total
            };
        }
    }

    /// Blocks not reserved; zero without a budget.
    pub fn free(&self) -> (n: usize)
        requires
            self.wf(),
        ensures
            n == self.unreserved(),
    {
        self.free
    }

    /// Blocks in the budget; zero without one.
    pub fn total(&self) -> (n: usize)
        ensures
            n == (match self.blocks() {
                Some(t) => t,
                None => 0,
            }),
    {
        match self.total {
            Some(t) => t,
            None => 0,
        }
    }

    /// Positions per block.
    pub fn block_size(&self) -> (n: usize)
        ensures
            n == self.size(),
    {
        self.block_size
    }

    /// Requests refused for exceeding the whole budget.
    pub fn rejected_too_large(&self) -> (n: u64)
        ensures
            n == self.too_large(),
    {
        self.rejected_too_large
    }

    /// Requests refused for exceeding the context ceiling.
    pub fn rejected_context_length(&self) -> (n: u64)
        ensures
            n == self.too_long(),
    {
        self.rejected_context_length
    }
}

/// The refusal of a request an immovable ceiling binds.
pub open spec fn is_budget_refusal(
    e: DecodeError,
    code: Seq<char>,
    estimated: u64,
    limit_price: u64,
    asked: int,
    limit: int,
    text: Seq<char>,
) -> bool {
    e matches DecodeError::KvBudgetExceeded {
        binding,
        estimated_bytes,
        limit_bytes,
        positions,
        positions_limit,
        detail,
    } && binding@ == code && estimated_bytes == estimated && limit_bytes == limit_price && positions == asked
        && positions_limit == limit && detail@ == text
}

/// The blocks of a request hold it, and none of them is spare: one block
/// fewer would leave a position without a place. A request of no positions
/// still takes one.
pub proof fn law_blocks_hold_their_positions(positions: int, block_size: int)
    requires
        0 <= positions,
        0 < block_size,
    ensures
        blocks_needed(positions, block_size) * block_size >= positions,
        positions > 0 ==> (blocks_needed(positions, block_size) - 1) * block_size < positions,
        positions == 0 ==> blocks_needed(positions, block_size) == 1,
        blocks_needed(positions, block_size) >= 1,
{
    if positions > 0 {
        let n = (positions + block_size - 1) / block_size;
        vstd::arithmetic::div_mod::lemma_fundamental_div_mod(positions + block_size - 1, block_size);
        vstd::arithmetic::div_mod::lemma_mod_bound(positions + block_size - 1, block_size);
        assert(block_size * n == n * block_size) by (nonlinear_arith);
        assert((n - 1) * block_size == n * block_size - block_size) by (nonlinear_arith);
        assert(n >= 1) by (nonlinear_arith)
            requires
                n * block_size >= positions,
                positions > 0,
                block_size > 0,
        ;
    }
}

/// A longer request never takes fewer blocks, and every whole block more
/// takes exactly one more.
pub proof fn law_blocks_grow_with_positions(positions: int, more: int, block_size: int)
    requires
        0 < positions <= more,
        0 < block_size,
    ensures
        blocks_needed(positions, block_size) <= blocks_needed(more, block_size),
        blocks_needed(positions + block_size, block_size) == blocks_needed(positions, block_size) + 1,
{
    law_blocks_hold_their_positions(positions, block_size);
    law_blocks_hold_their_positions(more, block_size);
    law_blocks_hold_their_positions(positions + block_size, block_size);
    let (a, b, c) = (
        blocks_needed(positions, block_size),
        blocks_needed(more, block_size),
        blocks_needed(positions + block_size, block_size),
    );
    assert(a <= b) by (nonlinear_arith)
        requires
            (a - 1) * block_size < b * block_size,
            0 < block_size,
    ;
    assert(c == a + 1) by (nonlinear_arith)
        requires
            (c - 1) * block_size < positions + block_size <= c * block_size,
            (a - 1) * block_size < positions <= a * block_size,
            0 < block_size,
    ;
}

/// Blocks that were taken come back whole: taking `n` that there is room for
/// and giving them back leaves the budget as it was, and no more ever comes
/// free than there is.
pub proof fn law_a_reservation_comes_back(before: &BlockBudget, taken: &BlockBudget, n: int)
    requires
        before.wf(),
        taken.wf(),
        0 <= n,
        before.has_room(n),
        taken.same_limits(before),
        before.blocks() is Some ==> taken.unreserved() == before.unreserved() - n,
        before.blocks() is None ==> taken.unreserved() == before.unreserved(),
    ensures
        taken.given_back(n) == before.unreserved(),
        before.blocks() matches Some(t) ==> n <= t && taken.reserved() == before.reserved() + n
            && before.given_back(n) <= t && (before.unreserved() + n <= t ==> before.given_back(n)
            == before.unreserved() + n),
{
}

/// Nothing is refused for room while its blocks are free, and everything is
/// taken where no budget is set.
pub proof fn law_room_is_what_is_free(budget: &BlockBudget, n: int)
    ensures
        budget.blocks() is None ==> budget.has_room(n),
        budget.blocks() is Some ==> (budget.has_room(n) <==> n <= budget.unreserved()),
{
}

/// The refusal of a request larger than the server says how many blocks it
/// needs, for how many positions, and how many there are.
pub proof fn law_the_device_message(blocks: int, positions: int, block_size: int, total: int)
    ensures
        device_detail(blocks, positions, block_size, total) == "request needs "@ + decimal_chars(blocks as nat)
            + " KV blocks ("@ + decimal_chars(positions as nat) + " token positions at "@ + decimal_chars(
            block_size as nat,
        ) + " per block) but this server's whole KV budget is "@ + decimal_chars(total as nat)
            + " blocks; an idle server would refuse it identically"@,
{
}

/// A refusal for size carries the ceiling, both prices, both counts and the
/// message.
pub proof fn law_a_budget_refusal_says_everything(
    e: DecodeError,
    code: Seq<char>,
    estimated: u64,
    limit_price: u64,
    asked: int,
    limit: int,
    text: Seq<char>,
)
    requires
        is_budget_refusal(e, code, estimated, limit_price, asked, limit, text),
    ensures
        e is KvBudgetExceeded,
        e->binding@ == code,
        e->estimated_bytes == estimated,
        e->limit_bytes == limit_price,
        e->positions == asked,
        e->positions_limit == limit,
        e->detail@ == text,
{
}

/// The blocks that the ledger counts for a request hold it, and no fewer
/// would.
pub proof fn law_counted_blocks_hold_the_request(budget: &BlockBudget, positions: usize, n: usize)
    requires
        budget.wf(),
        call_ensures(BlockBudget::blocks_for, (budget, positions), n),
    ensures
        n * budget.size() >= positions,
        positions > 0 ==> (n - 1) * budget.size() < positions,
        positions == 0 ==> n == 1,
{
    budget.law_blocks_are_accounted_for();
    law_blocks_hold_their_positions(positions as int, budget.size());
}

/// Blocks that come back are free again, all of them, as long as there are
/// no more of them free than there are; what comes back beyond that is not
/// counted.
pub proof fn law_blocks_come_back_up_to_all_of_them(budget: &BlockBudget, n: int)
    ensures
        budget.blocks() is Some && budget.unreserved() + n <= budget.blocks()->0 ==> budget.given_back(n)
            == budget.unreserved() + n,
        budget.blocks() is Some && budget.unreserved() + n > budget.blocks()->0 ==> budget.given_back(n)
            == budget.blocks()->0,
        budget.blocks() is None ==> budget.given_back(n) == budget.unreserved(),
        budget.blocks() is Some ==> budget.reserved() == budget.blocks()->0 - budget.unreserved(),
        budget.blocks() is None ==> budget.reserved() == 0,
{
}

/// Limits are the same exactly when the block size, the context and the
/// number of blocks are.
pub proof fn law_limits_are_size_context_and_blocks(a: &BlockBudget, b: &BlockBudget)
    ensures
        a.same_limits(b) <==> a.size() == b.size() && a.context() == b.context() && a.blocks() == b.blocks(),
{
}

/// Blocks taken and given back leave the budget as it was, and meanwhile it
/// has that many fewer.
pub proof fn law_taking_and_giving_back(
    b: &mut BlockBudget,
    blocks: usize,
    r: bool,
    c: &mut BlockBudget,
    u: (),
    before: usize,
    between: usize,
    after: usize,
)
    requires
        old(b).wf(),
        call_ensures(BlockBudget::try_reserve, (b, blocks), r),
        *old(c) == *final(b),
        call_ensures(BlockBudget::release, (c, blocks), u),
        call_ensures(BlockBudget::free, (&*old(b),), before),
        call_ensures(BlockBudget::free, (&*final(b),), between),
        call_ensures(BlockBudget::free, (&*final(c),), after),
    ensures
        old(b).blocks() is Some && blocks <= before ==> r && between == before - blocks && after == before,
        old(b).blocks() is Some && blocks > before ==> !r && between == before,
        old(b).blocks() is None ==> r && between == 0 && after == 0,
{
}

/// A refusal that no waiting would mend is counted once, under its own
/// reason; a request that may run counts nowhere.
pub proof fn law_an_immovable_refusal_is_counted_once(
    b: &mut BlockBudget,
    positions: usize,
    prices: Prices,
    r: Option<DecodeError>,
    large0: u64,
    large1: u64,
    long0: u64,
    long1: u64,
)
    requires
        old(b).wf(),
        call_ensures(BlockBudget::immovable_refusal, (b, positions, prices), r),
        call_ensures(BlockBudget::rejected_too_large, (&*old(b),), large0),
        call_ensures(BlockBudget::rejected_too_large, (&*final(b),), large1),
        call_ensures(BlockBudget::rejected_context_length, (&*old(b),), long0),
        call_ensures(BlockBudget::rejected_context_length, (&*final(b),), long1),
    ensures
        final(b).unreserved() == old(b).unreserved(),
        r is Some <==> (old(b).context() is Some && positions > old(b).context()->0) || (old(b).blocks() is Some
            && positions > old(b).blocks()->0 * old(b).size()) || (old(b).blocks() == Some(0usize)),
        r is None ==> large1 == large0 && long1 == long0,
        r is Some && old(b).context() is Some && positions > old(b).context()->0 ==> long1 == (long0 + 1)
            % 0x1_0000_0000_0000_0000 && large1 == large0,
        r is Some && !(old(b).context() is Some && positions > old(b).context()->0) ==> large1 == (large0
            + 1) % 0x1_0000_0000_0000_0000 && long1 == long0,
{
    if old(b).blocks() is Some {
        let (p, s, n) = (positions as int, old(b).size(), old(b).blocks()->0 as int);
        law_blocks_hold_their_positions(p, s);
        let k = blocks_needed(p, s);
        if k <= n {
            assert(k * s <= n * s) by (nonlinear_arith)
                requires
                    k <= n,
                    s > 0,
            ;
        } else {
            assert((k - 1) * s >= n * s) by (nonlinear_arith)
                requires
                    k > n,
                    s > 0,
            ;
        }
    }
}

} // verus!
