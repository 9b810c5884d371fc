//! The deterministic draw source: a SHA-256 chain over (seed, tick, order
//! counter). Each draw replaces the seed with the value drawn, so the
//! sequence of values depends only on the initial state and the order of
//! calls.
use crate::digest::{be_bytes, from_be_bytes, push_u64, read_u64, sha256_of, HashValue};
use vstd::prelude::*;

verus! {

/// The value a draw yields from the given state, before reduction to a range.
pub open spec fn draw_value(seed: u64, time: u64, counter: u64) -> u64 {
    from_be_bytes(sha256_of(be_bytes(seed) + be_bytes(time) + be_bytes(counter)))
}

pub open spec fn wrapping_inc(x: u64) -> u64 {
    if x == u64::MAX {
        0
    } else {
        (x + 1) as u64
    }
}

#[derive(Debug, Clone, Copy, PartialEq, Eq, Structural)]
pub struct DrawSource {
    pub seed: u64,
    /// The tick counter.
    pub current_time: u64,
    /// The last order id handed out.
    pub order_id_counter: u64,
}

impl DrawSource {
    pub fn new(seed: u64) -> (r: DrawSource)
        ensures
            r == (DrawSource { seed, current_time: 0, order_id_counter: 0 }),
    {
        DrawSource { seed, current_time: 0, order_id_counter: 0 }
    }

    /// The source after one draw.
    pub open spec fn after_draw(self) -> DrawSource {
        DrawSource {
            seed: draw_value(self.seed, self.current_time, self.order_id_counter),
            ..self
        }
    }

    /// A value uniform over `0..range`; advances the seed.
    pub fn generate_random(&mut self, range: u64) -> (r: u64)
        requires
            range > 0,
        ensures
            r == draw_value(old(self).seed, old(self).current_time, old(self).order_id_counter)
                % range,
            *final(self) == old(self).after_draw(),
    {
        let mut b: Vec<u8> = Vec::new();
        push_u64(&mut b, self.seed);
        push_u64(&mut b, self.current_time);
        push_u64(&mut b, self.order_id_counter);
        proof {
            assert(b@ =~= be_bytes(self.seed) + be_bytes(self.current_time) + be_bytes(
                self.order_id_counter,
            ));
        }
        let h = HashValue::of_bytes(&b);
        let value = read_u64(&h.bytes);
        self.seed = value;
        value % range
    }

    /// The next order id; ids wrap around after `u64::MAX`.
    pub fn next_order_id(&mut self) -> (r: u64)
        ensures
            r == wrapping_inc(old(self).order_id_counter),
            *final(self) == (DrawSource { order_id_counter: r, ..*old(self) }),
    {
        self.order_id_counter = self.order_id_counter.wrapping_add(1);
        self.order_id_counter
    }

    /// Advances the tick counter; it wraps around after `u64::MAX`.
    pub fn tick(&mut self)
        ensures
            *final(self) == (DrawSource {
                current_time: wrapping_inc(old(self).current_time),
                ..*old(self)
            }),
    {
        self.current_time = self.current_time.wrapping_add(1);
    }
}

} // verus!
