//! Which tick accounts a swap on a concentrated-liquidity pool needs: the
//! initialized ticks nearest to the current one, in the direction of the price.
use vstd::prelude::*;
use crate::invariant_math::{Pool, TICK_LIMIT};
use crate::tickmap::{Tickmap, TICKMAP_SIZE, bit_set, tick_at_position};
use crate::int_ops::{div_i32, rem_i32, trunc_div};
use crate::cp_swap::Pubkey;

verus! {

/// The way the price moves in a swap.
#[derive(Clone, Copy, Debug, PartialEq, Eq)]
pub enum PriceDirection {
    UP,
    DOWN,
}

/// Accounts a route instruction may hold.
pub const ADDRESS_LIMIT: usize = 20;
/// Accounts every swap holds.
pub const CONST_SWAP_ACCOUNTS: usize = 10;
/// Accounts not counted among those an edge needs (the user's output account and wallet).
pub const SKIPPED_ACCOUNTS: usize = 2;
/// Tick accounts left for one route instruction.
pub const TICK_CROSSES_PER_ROUTE_IX: usize = ADDRESS_LIMIT + SKIPPED_ACCOUNTS - CONST_SWAP_ACCOUNTS;

/// The initialized positions in `[from, to]`, lowest first.
pub open spec fn set_positions_up(bitmap: Seq<u8>, from: int, to: int) -> Seq<int>
    decreases to - from + 1,
{
    if from > to {
        Seq::empty()
    } else {
        (if bit_set(bitmap, from) { seq![from] } else { Seq::empty() }) + set_positions_up(bitmap, from + 1, to)
    }
}

/// The initialized positions in `[to, from]`, highest first.
pub open spec fn set_positions_down(bitmap: Seq<u8>, from: int, to: int) -> Seq<int>
    decreases from - to + 1,
{
    if from < to {
        Seq::empty()
    } else {
        (if bit_set(bitmap, from) { seq![from] } else { Seq::empty() }) + set_positions_down(bitmap, from - 1, to)
    }
}

/// Splitting the upward list at `m`.
proof fn lemma_set_positions_up_split(bitmap: Seq<u8>, from: int, m: int, to: int)
    requires
        from <= m <= to + 1,
    ensures
        set_positions_up(bitmap, from, to) == set_positions_up(bitmap, from, m - 1) + set_positions_up(bitmap, m, to),
    decreases m - from,
{
    if from == m {
        assert(set_positions_up(bitmap, from, m - 1) == Seq::<int>::empty());
        assert(set_positions_up(bitmap, from, to) == Seq::<int>::empty() + set_positions_up(bitmap, m, to));
    } else {
        lemma_set_positions_up_split(bitmap, from + 1, m, to);
        let head = if bit_set(bitmap, from) { seq![from] } else { Seq::<int>::empty() };
        assert(head + (set_positions_up(bitmap, from + 1, m - 1) + set_positions_up(bitmap, m, to)) == (head
            + set_positions_up(bitmap, from + 1, m - 1)) + set_positions_up(bitmap, m, to));
    }
}

/// Splitting the downward list at `m`.
proof fn lemma_set_positions_down_split(bitmap: Seq<u8>, from: int, m: int, to: int)
    requires
        to - 1 <= m <= from,
    ensures
        set_positions_down(bitmap, from, to) == set_positions_down(bitmap, from, m + 1) + set_positions_down(
            bitmap,
            m,
            to,
        ),
    decreases from - m,
{
    if from == m {
        assert(set_positions_down(bitmap, from, m + 1) == Seq::<int>::empty());
        assert(set_positions_down(bitmap, from, to) == Seq::<int>::empty() + set_positions_down(bitmap, m, to));
    } else {
        lemma_set_positions_down_split(bitmap, from - 1, m, to);
        let head = if bit_set(bitmap, from) { seq![from] } else { Seq::<int>::empty() };
        assert(head + (set_positions_down(bitmap, from - 1, m + 1) + set_positions_down(bitmap, m, to)) == (head
            + set_positions_down(bitmap, from - 1, m + 1)) + set_positions_down(bitmap, m, to));
    }
}

/// The positions the search returns: the first `limit` initialized ones past the
/// current tick, nearest first.
pub open spec fn closest_positions(bitmap: Seq<u8>, current_index: int, limit: nat, direction: PriceDirection) -> Seq<
    int,
> {
    let all = match direction {
        PriceDirection::UP => set_positions_up(bitmap, current_index + 1, TICKMAP_SIZE as int),
        PriceDirection::DOWN => set_positions_down(bitmap, current_index, 0),
    };
    if all.len() <= limit { all } else { all.take(limit as int) }
}

/// Whether the ticks of the positions the search returns fit in an `i32`.
pub open spec fn closest_ticks_fit(
    bitmap: Seq<u8>,
    current_index: int,
    limit: nat,
    direction: PriceDirection,
    spacing: int,
) -> bool {
    let cp = closest_positions(bitmap, current_index, limit, direction);
    forall|i: int| 0 <= i < cp.len() ==> i32::MIN <= #[trigger] tick_at_position(cp[i], spacing) <= i32::MAX
}

/// Whether a bit position lies in the tickmap.
pub open spec fn in_tickmap(pos: int) -> bool {
    0 <= pos <= TICKMAP_SIZE
}

/// The indexes of the `amount_limit` initialized ticks nearest to the pool's
/// current tick in `direction` (above it going up, at or below it going down),
/// nearest first.
pub fn find_closest_tick_indexes(pool: &Pool, tickmap: &Tickmap, amount_limit: usize, direction: PriceDirection) -> (r:
    Vec<i32>)
    requires
        0 < pool.tick_spacing,
        (pool.current_tick_index as int) % (pool.tick_spacing as int) == 0,
        trunc_div(pool.current_tick_index as int, pool.tick_spacing as int) + TICK_LIMIT < i32::MAX,
        direction == PriceDirection::UP ==> in_tickmap(
            trunc_div(pool.current_tick_index as int, pool.tick_spacing as int) + TICK_LIMIT + 1,
        ) || amount_limit == 0,
        direction == PriceDirection::DOWN ==> in_tickmap(
            trunc_div(pool.current_tick_index as int, pool.tick_spacing as int) + TICK_LIMIT,
        ) || amount_limit == 0,
        closest_ticks_fit(
            tickmap.bitmap@,
            trunc_div(pool.current_tick_index as int, pool.tick_spacing as int) + TICK_LIMIT,
            amount_limit as nat,
            direction,
            pool.tick_spacing as int,
        ),
    ensures
        r@ == closest_positions(
            tickmap.bitmap@,
            trunc_div(pool.current_tick_index as int, pool.tick_spacing as int) + TICK_LIMIT,
            amount_limit as nat,
            direction,
        ).map_values(|p: int| tick_at_position(p, pool.tick_spacing as int) as i32),
{
    let current = pool.current_tick_index;
    let tick_spacing = pool.tick_spacing as i32;
    proof {
        crate::int_ops::lemma_trunc_div_bounds(current as int, tick_spacing as int);
    }
    let current_index = div_i32(current, tick_spacing) + TICK_LIMIT;
    let ghost bitmap = tickmap.bitmap@;
    let mut found: Vec<i32> = Vec::new();
    if amount_limit == 0 {
        proof {
            assert(closest_positions(bitmap, current_index as int, 0, direction) =~= Seq::<int>::empty());
        }
        return found;
    }
    match direction {
        PriceDirection::UP => {
            let mut above = current_index + 1;
            let mut reached_limit = false;
            while !reached_limit && found.len() < amount_limit
                invariant
                    bitmap == tickmap.bitmap@,
                    bitmap.len() == 11091,
                    0 < tick_spacing,
                    tick_spacing == pool.tick_spacing,
                    closest_ticks_fit(bitmap, current_index as int, amount_limit as nat, direction, tick_spacing as int),
                    direction == PriceDirection::UP,
                    current_index + 1 <= above,
                    in_tickmap(above as int) || reached_limit,
                    reached_limit ==> above == TICKMAP_SIZE + 1,
                    found.len() <= amount_limit,
                    found@ == set_positions_up(bitmap, current_index + 1, above - 1).map_values(
                        |p: int| tick_at_position(p, tick_spacing as int) as i32,
                    ),
                decreases TICKMAP_SIZE + 1 - above,
            {
                proof {
                    lemma_set_positions_up_split(bitmap, current_index + 1, above as int, above as int);
                    assert(set_positions_up(bitmap, above + 1, above as int) == Seq::<int>::empty());
                    assert(set_positions_up(bitmap, above as int, above as int) =~= (if bit_set(bitmap, above as int) {
                        seq![above as int]
                    } else {
                        Seq::<int>::empty()
                    }));
                }
                let byte = tickmap.bitmap[(above / 8) as usize];
                let value_above = byte & (1u8 << (above % 8) as u8);
                proof {
                    lemma_bit_and(byte, (above % 8) as u8);
                }
                if value_above != 0 {
                    proof {
                        let all = set_positions_up(bitmap, current_index + 1, TICKMAP_SIZE as int);
                        lemma_set_positions_up_split(bitmap, current_index + 1, above as int, TICKMAP_SIZE as int);
                        let rest = set_positions_up(bitmap, above as int, TICKMAP_SIZE as int);
                        assert(rest[0] == above);
                        let k = found@.len() as int;
                        assert(all[k] == above as int);
                        let cp = closest_positions(bitmap, current_index as int, amount_limit as nat, direction);
                        assert(cp[k] == above as int);
                        assert(i32::MIN <= tick_at_position(cp[k], tick_spacing as int) <= i32::MAX);
                    }
                    found.push((above - TICK_LIMIT) * tick_spacing);
                }
                proof {
                    assert(found@ =~= set_positions_up(bitmap, current_index + 1, above as int).map_values(
                        |p: int| tick_at_position(p, tick_spacing as int) as i32,
                    ));
                }
                reached_limit = above >= TICKMAP_SIZE;
                above = above + 1;
            }
            proof {
                let all = set_positions_up(bitmap, current_index + 1, TICKMAP_SIZE as int);
                lemma_set_positions_up_split(bitmap, current_index + 1, above as int, TICKMAP_SIZE as int);
                if !reached_limit {
                    assert(all.take(amount_limit as int) =~= set_positions_up(bitmap, current_index + 1, above - 1));
                }
            }
        },
        PriceDirection::DOWN => {
            let mut below = current_index;
            let mut reached_limit = false;
            while !reached_limit && found.len() < amount_limit
                invariant
                    bitmap == tickmap.bitmap@,
                    bitmap.len() == 11091,
                    0 < tick_spacing,
                    tick_spacing == pool.tick_spacing,
                    closest_ticks_fit(bitmap, current_index as int, amount_limit as nat, direction, tick_spacing as int),
                    direction == PriceDirection::DOWN,
                    below <= current_index,
                    in_tickmap(below as int) || reached_limit,
                    reached_limit ==> below == -1,
                    found.len() <= amount_limit,
                    found@ == set_positions_down(bitmap, current_index as int, below + 1).map_values(
                        |p: int| tick_at_position(p, tick_spacing as int) as i32,
                    ),
                decreases below + 1,
            {
                proof {
                    lemma_set_positions_down_split(bitmap, current_index as int, below as int, below as int);
                    assert(set_positions_down(bitmap, below - 1, below as int) == Seq::<int>::empty());
                    assert(set_positions_down(bitmap, below as int, below as int) =~= (if bit_set(bitmap, below as int) {
                        seq![below as int]
                    } else {
                        Seq::<int>::empty()
                    }));
                }
                let byte = tickmap.bitmap[(below / 8) as usize];
                let value_below = byte & (1u8 << (below % 8) as u8);
                proof {
                    lemma_bit_and(byte, (below % 8) as u8);
                }
                if value_below != 0 {
                    proof {
                        let all = set_positions_down(bitmap, current_index as int, 0);
                        lemma_set_positions_down_split(bitmap, current_index as int, below as int, 0);
                        let rest = set_positions_down(bitmap, below as int, 0);
                        assert(rest[0] == below);
                        let k = found@.len() as int;
                        assert(all[k] == below as int);
                        let cp = closest_positions(bitmap, current_index as int, amount_limit as nat, direction);
                        assert(cp[k] == below as int);
                        assert(i32::MIN <= tick_at_position(cp[k], tick_spacing as int) <= i32::MAX);
                    }
                    found.push((below - TICK_LIMIT) * tick_spacing);
                }
                proof {
                    assert(found@ =~= set_positions_down(bitmap, current_index as int, below as int).map_values(
                        |p: int| tick_at_position(p, tick_spacing as int) as i32,
                    ));
                }
                reached_limit = below <= 0;
                below = below - 1;
            }
            proof {
                let all = set_positions_down(bitmap, current_index as int, 0);
                lemma_set_positions_down_split(bitmap, current_index as int, below as int, 0);
                if !reached_limit {
                    assert(all.take(amount_limit as int) =~= set_positions_down(bitmap, current_index as int, below + 1));
                }
            }
        },
    }
    found
}

/// Testing bit `i` of a byte with a mask.
proof fn lemma_bit_and(b: u8, i: u8)
    by (bit_vector)
    requires
        i < 8,
    ensures
        (b & (1u8 << i) != 0) == ((b >> i) % 2 == 1),
{
}

} // verus!

verus! {

/// An edge of a pool: selling token x for token y, or y for x.
#[derive(Clone, Copy, Debug, PartialEq, Eq)]
pub struct InvariantEdgeIdentifier {
    pub pool: Pubkey,
    pub token_x: Pubkey,
    pub token_y: Pubkey,
    pub x_to_y: bool,
}

impl InvariantEdgeIdentifier {
    pub open spec fn spec_input_mint(self) -> Pubkey {
        if self.x_to_y { self.token_x } else { self.token_y }
    }

    pub open spec fn spec_output_mint(self) -> Pubkey {
        if self.x_to_y { self.token_y } else { self.token_x }
    }

    /// The key the edge is filed under: its pool.
    pub fn key(&self) -> (r: Pubkey)
        ensures
            r == self.pool,
    {
        self.pool
    }

    pub fn input_mint(&self) -> (r: Pubkey)
        ensures
            r == self.spec_input_mint(),
    {
        if self.x_to_y { self.token_x } else { self.token_y }
    }

    pub fn output_mint(&self) -> (r: Pubkey)
        ensures
            r == self.spec_output_mint(),
    {
        if self.x_to_y { self.token_y } else { self.token_x }
    }

    /// The number of accounts a swap through the edge takes.
    pub fn accounts_needed(&self) -> (r: usize)
        ensures
            r == 20,
    {
        20
    }
}

/// The two edges of a pool go opposite ways: what one takes, the other gives.
pub proof fn lemma_invariant_edges_opposite(e: InvariantEdgeIdentifier)
    ensures
        ({
            let other = InvariantEdgeIdentifier { x_to_y: !e.x_to_y, ..e };
            &&& other.spec_input_mint() == e.spec_output_mint()
            &&& other.spec_output_mint() == e.spec_input_mint()
        }),
{
}

} // verus!

verus! {

/// The ticks whose accounts a swap in `direction` may cross: the nearest
/// `TICK_CROSSES_PER_ROUTE_IX` initialized ticks that way.
pub fn closest_tick_indexes(pool: &Pool, tickmap: &Tickmap, direction: PriceDirection) -> (r: Vec<i32>)
    requires
        0 < pool.tick_spacing,
        closest_ticks_fit(
            tickmap.bitmap@,
            trunc_div(pool.current_tick_index as int, pool.tick_spacing as int) + TICK_LIMIT,
            TICK_CROSSES_PER_ROUTE_IX as nat,
            direction,
            pool.tick_spacing as int,
        ),
        (pool.current_tick_index as int) % (pool.tick_spacing as int) == 0,
        trunc_div(pool.current_tick_index as int, pool.tick_spacing as int) + TICK_LIMIT < i32::MAX,
        direction == PriceDirection::UP ==> in_tickmap(
            trunc_div(pool.current_tick_index as int, pool.tick_spacing as int) + TICK_LIMIT + 1,
        ),
        direction == PriceDirection::DOWN ==> in_tickmap(
            trunc_div(pool.current_tick_index as int, pool.tick_spacing as int) + TICK_LIMIT,
        ),
    ensures
        r@ == closest_positions(
            tickmap.bitmap@,
            trunc_div(pool.current_tick_index as int, pool.tick_spacing as int) + TICK_LIMIT,
            TICK_CROSSES_PER_ROUTE_IX as nat,
            direction,
        ).map_values(|p: int| tick_at_position(p, pool.tick_spacing as int) as i32),
{
    find_closest_tick_indexes(pool, tickmap, TICK_CROSSES_PER_ROUTE_IX, direction)
}

/// The ticks whose accounts a swap either way may cross: those below the pool's
/// tick (nearest first), then those above it (nearest first).
pub fn tick_indexes_around(pool: &Pool, tickmap: &Tickmap) -> (r: Vec<i32>)
    requires
        0 < pool.tick_spacing,
        closest_ticks_fit(
            tickmap.bitmap@,
            trunc_div(pool.current_tick_index as int, pool.tick_spacing as int) + TICK_LIMIT,
            TICK_CROSSES_PER_ROUTE_IX as nat,
            PriceDirection::DOWN,
            pool.tick_spacing as int,
        ),
        closest_ticks_fit(
            tickmap.bitmap@,
            trunc_div(pool.current_tick_index as int, pool.tick_spacing as int) + TICK_LIMIT,
            TICK_CROSSES_PER_ROUTE_IX as nat,
            PriceDirection::UP,
            pool.tick_spacing as int,
        ),
        (pool.current_tick_index as int) % (pool.tick_spacing as int) == 0,
        trunc_div(pool.current_tick_index as int, pool.tick_spacing as int) + TICK_LIMIT < i32::MAX,
        in_tickmap(trunc_div(pool.current_tick_index as int, pool.tick_spacing as int) + TICK_LIMIT),
        in_tickmap(trunc_div(pool.current_tick_index as int, pool.tick_spacing as int) + TICK_LIMIT + 1),
    ensures
        r@ == closest_positions(
            tickmap.bitmap@,
            trunc_div(pool.current_tick_index as int, pool.tick_spacing as int) + TICK_LIMIT,
            TICK_CROSSES_PER_ROUTE_IX as nat,
            PriceDirection::DOWN,
        ).map_values(|p: int| tick_at_position(p, pool.tick_spacing as int) as i32) + closest_positions(
            tickmap.bitmap@,
            trunc_div(pool.current_tick_index as int, pool.tick_spacing as int) + TICK_LIMIT,
            TICK_CROSSES_PER_ROUTE_IX as nat,
            PriceDirection::UP,
        ).map_values(|p: int| tick_at_position(p, pool.tick_spacing as int) as i32),
{
    let mut below = closest_tick_indexes(pool, tickmap, PriceDirection::DOWN);
    let mut above = closest_tick_indexes(pool, tickmap, PriceDirection::UP);
    below.append(&mut above);
    below
}

} // verus!

verus! {

/// The upward list holds exactly the initialized positions of its range, in
/// increasing order.
proof fn lemma_set_positions_up_exact(bitmap: Seq<u8>, from: int, to: int)
    ensures
        ({
            let s = set_positions_up(bitmap, from, to);
            &&& forall|i: int| 0 <= i < s.len() ==> from <= #[trigger] s[i] <= to && bit_set(bitmap, s[i])
            &&& forall|i: int, j: int| 0 <= i < j < s.len() ==> #[trigger] s[i] < #[trigger] s[j]
            &&& forall|q: int| from <= q <= to && #[trigger] bit_set(bitmap, q) ==> s.contains(q)
        }),
    decreases to - from + 1,
{
    if from <= to {
        lemma_set_positions_up_exact(bitmap, from + 1, to);
        let rest = set_positions_up(bitmap, from + 1, to);
        let head = if bit_set(bitmap, from) { seq![from] } else { Seq::<int>::empty() };
        let s = set_positions_up(bitmap, from, to);
        assert(s == head + rest);
        assert forall|q: int| from <= q <= to && #[trigger] bit_set(bitmap, q) implies s.contains(q) by {
            if q == from {
                assert(s[0] == from);
            } else {
                assert(rest.contains(q));
                let k = choose|k: int| 0 <= k < rest.len() && rest[k] == q;
                assert(s[head.len() + k] == q);
            }
        }
    }
}

/// The downward list holds exactly the initialized positions of its range, in
/// decreasing order.
proof fn lemma_set_positions_down_exact(bitmap: Seq<u8>, from: int, to: int)
    ensures
        ({
            let s = set_positions_down(bitmap, from, to);
            &&& forall|i: int| 0 <= i < s.len() ==> to <= #[trigger] s[i] <= from && bit_set(bitmap, s[i])
            &&& forall|i: int, j: int| 0 <= i < j < s.len() ==> #[trigger] s[i] > #[trigger] s[j]
            &&& forall|q: int| to <= q <= from && #[trigger] bit_set(bitmap, q) ==> s.contains(q)
        }),
    decreases from - to + 1,
{
    if to <= from {
        lemma_set_positions_down_exact(bitmap, from - 1, to);
        let rest = set_positions_down(bitmap, from - 1, to);
        let head = if bit_set(bitmap, from) { seq![from] } else { Seq::<int>::empty() };
        let s = set_positions_down(bitmap, from, to);
        assert(s == head + rest);
        assert forall|q: int| to <= q <= from && #[trigger] bit_set(bitmap, q) implies s.contains(q) by {
            if q == from {
                assert(s[0] == from);
            } else {
                assert(rest.contains(q));
                let k = choose|k: int| 0 <= k < rest.len() && rest[k] == q;
                assert(s[head.len() + k] == q);
            }
        }
    }
}

/// The positions the search returns are initialized positions past the
/// current one in the direction of the price (above it going up, at or below
/// it going down), nearest first, at most `limit` of them; and no initialized
/// position is skipped: every one between the current position and the last
/// returned is returned, and all are when fewer than `limit` came back.
pub proof fn lemma_closest_positions_law(bitmap: Seq<u8>, current_index: int, limit: nat, direction: PriceDirection)
    ensures
        ({
            let r = closest_positions(bitmap, current_index, limit, direction);
            let up = direction == PriceDirection::UP;
            let ahead = |q: int| if up { current_index < q <= TICKMAP_SIZE } else { 0 <= q <= current_index };
            let nearer = |a: int, b: int| if up { a < b } else { a > b };
            &&& r.len() <= limit
            &&& forall|i: int| 0 <= i < r.len() ==> ahead(#[trigger] r[i]) && bit_set(bitmap, r[i])
            &&& forall|i: int, j: int| 0 <= i < j < r.len() ==> nearer(#[trigger] r[i], #[trigger] r[j])
            &&& forall|q: int|
                ahead(q) && #[trigger] bit_set(bitmap, q) && (r.len() < limit || (r.len() > 0 && nearer(
                    q,
                    r[r.len() - 1],
                ))) ==> r.contains(q)
        }),
{
    let up = direction == PriceDirection::UP;
    let all = match direction {
        PriceDirection::UP => set_positions_up(bitmap, current_index + 1, TICKMAP_SIZE as int),
        PriceDirection::DOWN => set_positions_down(bitmap, current_index, 0),
    };
    if up {
        lemma_set_positions_up_exact(bitmap, current_index + 1, TICKMAP_SIZE as int);
    } else {
        lemma_set_positions_down_exact(bitmap, current_index, 0);
    }
    let r = closest_positions(bitmap, current_index, limit, direction);
    let ahead = |q: int| if up { current_index < q <= TICKMAP_SIZE } else { 0 <= q <= current_index };
    let nearer = |a: int, b: int| if up { a < b } else { a > b };
    assert forall|i: int| 0 <= i < r.len() implies ahead(#[trigger] r[i]) && bit_set(bitmap, r[i]) by {
        assert(r[i] == all[i]);
    }
    assert forall|i: int, j: int| 0 <= i < j < r.len() implies nearer(#[trigger] r[i], #[trigger] r[j]) by {
        assert(r[i] == all[i] && r[j] == all[j]);
    }
    assert forall|q: int|
        ahead(q) && #[trigger] bit_set(bitmap, q) && (r.len() < limit || (r.len() > 0 && nearer(
            q,
            r[r.len() - 1],
        ))) implies r.contains(q) by {
        assert(all.contains(q));
        let k = choose|k: int| 0 <= k < all.len() && all[k] == q;
        if all.len() <= limit {
            assert(r[k] == q);
        } else {
            let last = r.len() - 1;
            assert(r[last] == all[last]);
            if k >= last {
                if k > last {
                    assert(nearer(all[last], all[k]));
                }
                assert(false);
            }
            assert(r[k] == q);
        }
    }
}

} // verus!
