//! AIMD congestion control over the amount of money in flight: slow-start
//! doubling on fulfills, additive increase after the first congestion signal,
//! multiplicative decrease on `T04` rejects.

use std::collections::HashMap;
use vstd::prelude::*;
use vstd::string::StringSliceAdditionalSpecFns;

verus! {

broadcast use vstd::std_specs::hash::group_hash_axioms;

/// Phase of the congestion controller.
#[derive(Debug, Clone, Copy, PartialEq, Eq, Structural)]
pub enum CongestionState {
    SlowStart,
    AvoidCongestion,
}

/// Congestion controller state: the window is `max_in_flight`, of which
/// `amount_in_flight` is outstanding, tracked per packet id.
#[derive(Debug)]
pub struct CongestionController {
    pub state: CongestionState,
    pub increase_amount: u64,
    pub decrease_factor: u64,
    pub max_packet_amount: Option<u64>,
    pub amount_in_flight: u64,
    pub max_in_flight: u64,
    /// Outstanding packets: id to amount.
    pub packets: HashMap<u32, u64>,
}

/// `a + b`, saturating at `u64::MAX`.
pub open spec fn add_sat(a: u64, b: u64) -> u64 {
    if a + b <= u64::MAX {
        (a + b) as u64
    } else {
        u64::MAX
    }
}

/// `a - b`, saturating at zero.
pub open spec fn sub_sat(a: u64, b: u64) -> u64 {
    if a >= b {
        (a - b) as u64
    } else {
        0
    }
}

/// `2 * w`, saturating at `u64::MAX`.
pub open spec fn double_sat(w: u64) -> u64 {
    if w <= u64::MAX / 2 {
        (2 * w) as u64
    } else {
        u64::MAX
    }
}

/// `m / df`, reading a zero divisor as no decrease.
pub open spec fn dec_div(m: u64, df: u64) -> u64 {
    if df == 0 {
        m
    } else {
        (m / df) as u64
    }
}

/// The amount the controller allows in the next packet.
pub open spec fn max_amount_spec(c: CongestionController) -> u64 {
    let left = sub_sat(c.max_in_flight, c.amount_in_flight);
    match c.max_packet_amount {
        Some(m) => if left <= m {
            left
        } else {
            m
        },
        None => left,
    }
}

/// Whether a reject's ILP error code is `T04`, the congestion signal, given
/// the code's UTF-8 bytes.
pub open spec fn is_t04_bytes(b: Seq<u8>) -> bool {
    b == seq![0x54u8, 0x30u8, 0x34u8]
}

/// How `fulfill` transforms the controller: the packet's amount is freed and
/// the window widens (doubling in slow start, additive afterwards).
pub open spec fn fulfill_rel(c0: CongestionController, c1: CongestionController, id: u32) -> bool {
    if !c0.packets@.contains_key(id) {
        &&& c1.packets@ == c0.packets@
        &&& c1.amount_in_flight == c0.amount_in_flight
        &&& c1.max_in_flight == c0.max_in_flight
        &&& c1.state == c0.state
        &&& c1.increase_amount == c0.increase_amount
        &&& c1.decrease_factor == c0.decrease_factor
        &&& c1.max_packet_amount == c0.max_packet_amount
    } else {
        &&& c1.packets@ == c0.packets@.remove(id)
        &&& c1.amount_in_flight == sub_sat(c0.amount_in_flight, c0.packets@[id])
        &&& c1.max_in_flight == (if c0.state == CongestionState::SlowStart {
            double_sat(c0.max_in_flight)
        } else {
            add_sat(c0.max_in_flight, c0.increase_amount)
        })
        &&& c1.state == c0.state
        &&& c1.increase_amount == c0.increase_amount
        &&& c1.decrease_factor == c0.decrease_factor
        &&& c1.max_packet_amount == c0.max_packet_amount
    }
}

/// How `reject` transforms the controller: the packet's amount is freed, and
/// on the congestion signal the controller enters avoidance and divides the
/// window by the decrease factor, but never below 1.
pub open spec fn reject_rel(
    c0: CongestionController,
    c1: CongestionController,
    id: u32,
    congested: bool,
) -> bool {
    if !c0.packets@.contains_key(id) {
        &&& c1.packets@ == c0.packets@
        &&& c1.amount_in_flight == c0.amount_in_flight
        &&& c1.max_in_flight == c0.max_in_flight
        &&& c1.state == c0.state
        &&& c1.increase_amount == c0.increase_amount
        &&& c1.decrease_factor == c0.decrease_factor
        &&& c1.max_packet_amount == c0.max_packet_amount
    } else {
        let divided = dec_div(c0.max_in_flight, c0.decrease_factor);
        let lowered = if divided >= 1 {
            divided
        } else {
            1u64
        };
        &&& c1.packets@ == c0.packets@.remove(id)
        &&& c1.amount_in_flight == sub_sat(c0.amount_in_flight, c0.packets@[id])
        &&& (if congested {
            c1.state == CongestionState::AvoidCongestion && c1.max_in_flight == lowered
        } else {
            c1.state == c0.state && c1.max_in_flight == c0.max_in_flight
        })
        &&& c1.increase_amount == c0.increase_amount
        &&& c1.decrease_factor == c0.decrease_factor
        &&& c1.max_packet_amount == c0.max_packet_amount
    }
}

impl CongestionController {
    /// A controller in slow start with the given window, additive increase
    /// step and multiplicative decrease factor.
    pub fn new(start_amount: u64, increase_amount: u64, decrease_factor: u64) -> (r:
        CongestionController)
        ensures
            r.state == CongestionState::SlowStart,
            r.increase_amount == increase_amount,
            r.decrease_factor == decrease_factor,
            r.max_packet_amount is None,
            r.amount_in_flight == 0,
            r.max_in_flight == start_amount,
            r.packets@ == Map::<u32, u64>::empty(),
    {
        CongestionController {
            state: CongestionState::SlowStart,
            increase_amount,
            decrease_factor,
            max_packet_amount: None,
            amount_in_flight: 0,
            max_in_flight: start_amount,
            packets: HashMap::new(),
        }
    }

    /// The stock controller: a window of 1000, steps of 1000, halving on
    /// congestion.
    pub fn default() -> (r: CongestionController)
        ensures
            r.state == CongestionState::SlowStart,
            r.increase_amount == 1000,
            r.decrease_factor == 2,
            r.max_packet_amount is None,
            r.amount_in_flight == 0,
            r.max_in_flight == 1000,
            r.packets@ == Map::<u32, u64>::empty(),
    {
        CongestionController::new(1000, 1000, 2)
    }

    /// Caps the amount of a single packet.
    pub fn set_max_packet_amount(&mut self, max_packet_amount: u64)
        ensures
            *final(self) == (CongestionController {
                max_packet_amount: Some(max_packet_amount),
                ..*old(self)
            }),
    {
        self.max_packet_amount = Some(max_packet_amount);
    }

    /// The most the controller allows in the next packet: what is left of the
    /// window, capped by the packet-amount limit if one is set.
    pub fn get_max_amount(&self) -> (r: u64)
        ensures
            r == max_amount_spec(*self),
    {
        let left = if self.amount_in_flight >= self.max_in_flight {
            0
        } else {
            self.max_in_flight - self.amount_in_flight
        };
        match self.max_packet_amount {
            Some(m) => if left <= m {
                left
            } else {
                m
            },
            None => left,
        }
    }

    /// Records an outgoing packet: adds its amount to the in-flight total and
    /// remembers it under its id. A zero amount changes nothing.
    pub fn prepare(&mut self, id: u32, amount: u64)
        ensures
            amount > 0 ==> *final(self) == (CongestionController {
                amount_in_flight: add_sat(old(self).amount_in_flight, amount),
                packets: final(self).packets,
                ..*old(self)
            }) && final(self).packets@ == old(self).packets@.insert(id, amount),
            amount == 0 ==> *final(self) == *old(self),
    {
        if amount > 0 {
            if u64::MAX - self.amount_in_flight >= amount {
                self.amount_in_flight = self.amount_in_flight + amount;
            } else {
                self.amount_in_flight = u64::MAX;
            }
            self.packets.insert(id, amount);
        }
    }

    /// Handles a fulfilled packet: frees its amount and widens the window. In
    /// slow start the window doubles; afterwards it grows by the additive
    /// step. Both saturate at `u64::MAX`. An unknown id changes nothing.
    pub fn fulfill(&mut self, id: u32)
        ensures
            fulfill_rel(*old(self), *final(self), id),
    {
        match self.packets.remove(&id) {
            None => {
                proof {
                    assert(old(self).packets@.remove(id) =~= old(self).packets@);
                }
            },
            Some(amount) => {
                if self.amount_in_flight >= amount {
                    self.amount_in_flight = self.amount_in_flight - amount;
                } else {
                    self.amount_in_flight = 0;
                }
                if self.state == CongestionState::SlowStart {
                    if u64::MAX / 2 >= self.max_in_flight {
                        self.max_in_flight = 2 * self.max_in_flight;
                    } else {
                        self.max_in_flight = u64::MAX;
                    }
                } else {
                    if u64::MAX - self.increase_amount >= self.max_in_flight {
                        self.max_in_flight = self.max_in_flight + self.increase_amount;
                    } else {
                        self.max_in_flight = u64::MAX;
                    }
                }
            },
        }
    }

    /// Handles a rejected packet: frees its amount, and on the congestion
    /// signal `T04` enters congestion avoidance and divides the window by the
    /// decrease factor, but never below 1. An unknown id changes nothing.
    pub fn reject(&mut self, id: u32, error_code: &str)
        ensures
            reject_rel(*old(self), *final(self), id, is_t04_bytes(error_code.spec_bytes())),
    {
        let code_bytes = error_code.as_bytes();
        let congested = code_bytes.len() == 3 && code_bytes[0] == 0x54 && code_bytes[1] == 0x30
            && code_bytes[2] == 0x34;
        proof {
            if congested {
                assert(error_code.spec_bytes() =~= seq![0x54u8, 0x30u8, 0x34u8]);
            } else {
                assert(!is_t04_bytes(error_code.spec_bytes()));
            }
        }
        self.apply_reject(id, congested);
    }

    /// Handles a rejected packet given only whether the reject signalled
    /// congestion; `reject` derives that flag from the ILP error code.
    pub fn apply_reject(&mut self, id: u32, congested: bool)
        ensures
            reject_rel(*old(self), *final(self), id, congested),
    {
        match self.packets.remove(&id) {
            None => {
                proof {
                    assert(old(self).packets@.remove(id) =~= old(self).packets@);
                }
            },
            Some(amount) => {
                if self.amount_in_flight >= amount {
                    self.amount_in_flight = self.amount_in_flight - amount;
                } else {
                    self.amount_in_flight = 0;
                }
                if congested {
                    self.state = CongestionState::AvoidCongestion;
                    let divided = if self.decrease_factor == 0 {
                        self.max_in_flight
                    } else {
                        self.max_in_flight / self.decrease_factor
                    };
                    self.max_in_flight = if divided >= 1 {
                        divided
                    } else {
                        1
                    };
                }
            },
        }
    }
}

/// 2 raised to the power `n`.
pub open spec fn pow2(n: nat) -> nat
    decreases n,
{
    if n == 0 {
        1
    } else {
        2 * pow2((n - 1) as nat)
    }
}

/// The window after `n` saturating doublings of `a`.
pub open spec fn iter_double(a: u64, n: nat) -> u64
    decreases n,
{
    if n == 0 {
        a
    } else {
        double_sat(iter_double(a, (n - 1) as nat))
    }
}

/// Slow-start law: each fulfilled packet doubles the window, so after `n`
/// consecutive fulfills from a window of `a` the window is `a * 2^n`,
/// saturated at `u64::MAX`. `fulfill` guarantees one `double_sat` step per
/// call in slow start; this lemma gives the closed form of `n` such steps.
pub proof fn lemma_slow_start_window(a: u64, n: nat)
    ensures
        iter_double(a, n) == (if a * pow2(n) <= u64::MAX {
            (a * pow2(n)) as u64
        } else {
            u64::MAX
        }),
    decreases n,
{
    if n == 0 {
        assert(pow2(0) == 1);
        assert(a * 1 == a);
    } else {
        lemma_slow_start_window(a, (n - 1) as nat);
        let prev = iter_double(a, (n - 1) as nat);
        let p = pow2((n - 1) as nat);
        assert(pow2(n) == 2 * p);
        assert(a * (2 * p) == 2 * (a * p)) by (nonlinear_arith);
        if a * p <= u64::MAX {
            assert(prev == a * p);
            if prev <= u64::MAX / 2 {
                assert(iter_double(a, n) == 2 * prev);
                assert(a * pow2(n) == 2 * (a * p));
            } else {
                assert(2 * prev > u64::MAX);
                assert(iter_double(a, n) == u64::MAX);
                assert(a * pow2(n) > u64::MAX);
            }
        } else {
            assert(prev == u64::MAX);
            assert(iter_double(a, n) == u64::MAX);
            assert(a * pow2(n) == 2 * (a * p));
            assert(a * pow2(n) >= a * p) by (nonlinear_arith)
                requires
                    a * p >= 0,
                    a * pow2(n) == 2 * (a * p),
            ;
        }
    }
}

} // verus!
