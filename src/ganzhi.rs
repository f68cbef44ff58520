//! The sexagenary cycle: a heavenly stem (mod 10) paired with an earthly
//! branch (mod 12). Either axis may be -1, meaning that the axis is absent.
use vstd::prelude::*;
use vstd::string::*;
use vstd::arithmetic::div_mod::{lemma_fundamental_div_mod, lemma_fundamental_div_mod_converse, lemma_add_mod_noop, lemma_small_mod, lemma_mod_add_multiples_vanish};

verus! {

/// Number of heavenly stems.
pub const STEMS: i32 = 10;

/// Number of earthly branches.
pub const BRANCHES: i32 = 12;

/// An axis value is the sentinel -1 or a residue modulo `n`.
pub open spec fn axis_ok(v: int, n: int) -> bool {
    v == -1 || (0 <= v < n)
}

/// One step forward on an axis of length `n`; the sentinel stays put.
pub open spec fn axis_next(v: int, n: int) -> int {
    if v == -1 {
        -1
    } else {
        (v + 1) % n
    }
}

/// One step backward on an axis of length `n`; the sentinel stays put.
pub open spec fn axis_prev(v: int, n: int) -> int {
    if v == -1 {
        -1
    } else {
        (v + n - 1) % n
    }
}

/// The character of stem `i`; empty for the sentinel.
pub open spec fn stem_name(i: int) -> Seq<char> {
    if i == 0 {
        seq!['甲']
    } else if i == 1 {
        seq!['乙']
    } else if i == 2 {
        seq!['丙']
    } else if i == 3 {
        seq!['丁']
    } else if i == 4 {
        seq!['戊']
    } else if i == 5 {
        seq!['己']
    } else if i == 6 {
        seq!['庚']
    } else if i == 7 {
        seq!['辛']
    } else if i == 8 {
        seq!['壬']
    } else if i == 9 {
        seq!['癸']
    } else {
        seq![]
    }
}

/// The character of branch `i`; empty for the sentinel.
pub open spec fn branch_name(i: int) -> Seq<char> {
    if i == 0 {
        seq!['子']
    } else if i == 1 {
        seq!['丑']
    } else if i == 2 {
        seq!['寅']
    } else if i == 3 {
        seq!['卯']
    } else if i == 4 {
        seq!['辰']
    } else if i == 5 {
        seq!['巳']
    } else if i == 6 {
        seq!['午']
    } else if i == 7 {
        seq!['未']
    } else if i == 8 {
        seq!['申']
    } else if i == 9 {
        seq!['酉']
    } else if i == 10 {
        seq!['戌']
    } else if i == 11 {
        seq!['亥']
    } else {
        seq![]
    }
}

/// A stem/branch pair. `GanZhi(0, 0)` is the first pair of the cycle.
#[derive(Debug, Copy, Clone, Default, PartialEq, Eq, Structural)]
pub struct GanZhi(pub i32, pub i32);

impl GanZhi {
    /// Both axes hold a residue or the sentinel.
    pub open spec fn wf(self) -> bool {
        axis_ok(self.0 as int, STEMS as int) && axis_ok(self.1 as int, BRANCHES as int)
    }

    /// The pair that follows this one in the cycle.
    pub open spec fn next(self) -> GanZhi {
        GanZhi(
            axis_next(self.0 as int, STEMS as int) as i32,
            axis_next(self.1 as int, BRANCHES as int) as i32,
        )
    }

    /// The pair that precedes this one in the cycle.
    pub open spec fn prev(self) -> GanZhi {
        GanZhi(
            axis_prev(self.0 as int, STEMS as int) as i32,
            axis_prev(self.1 as int, BRANCHES as int) as i32,
        )
    }

    /// The following pair: each present axis advances by one.
    pub fn inc(&self) -> (r: GanZhi)
        requires
            self.wf(),
        ensures
            r == self.next(),
            r.wf(),
    {
        let g: i32 = if self.0 == -1 {
            -1
        } else {
            (self.0 + 1) % STEMS
        };
        let z: i32 = if self.1 == -1 {
            -1
        } else {
            (self.1 + 1) % BRANCHES
        };
        GanZhi(g, z)
    }

    /// The preceding pair: each present axis goes back by one.
    pub fn dec(&self) -> (r: GanZhi)
        requires
            self.wf(),
        ensures
            r == self.prev(),
            r.wf(),
    {
        let g: i32 = if self.0 == -1 {
            -1
        } else {
            (self.0 + STEMS - 1) % STEMS
        };
        let z: i32 = if self.1 == -1 {
            -1
        } else {
            (self.1 + BRANCHES - 1) % BRANCHES
        };
        GanZhi(g, z)
    }

    /// The stem's character, or the empty string when the stem is absent.
    pub fn gan(&self) -> (r: &'static str)
        requires
            self.wf(),
        ensures
            r@ == stem_name(self.0 as int),
    {
        match self.0 {
            0 => {
                proof {
                    reveal_strlit("甲");
                }
                "甲"
            },
            1 => {
                proof {
                    reveal_strlit("乙");
                }
                "乙"
            },
            2 => {
                proof {
                    reveal_strlit("丙");
                }
                "丙"
            },
            3 => {
                proof {
                    reveal_strlit("丁");
                }
                "丁"
            },
            4 => {
                proof {
                    reveal_strlit("戊");
                }
                "戊"
            },
            5 => {
                proof {
                    reveal_strlit("己");
                }
                "己"
            },
            6 => {
                proof {
                    reveal_strlit("庚");
                }
                "庚"
            },
            7 => {
                proof {
                    reveal_strlit("辛");
                }
                "辛"
            },
            8 => {
                proof {
                    reveal_strlit("壬");
                }
                "壬"
            },
            9 => {
                proof {
                    reveal_strlit("癸");
                }
                "癸"
            },
            _ => {
                proof {
                    reveal_strlit("");
                }
                ""
            },
        }
    }

    /// The branch's character, or the empty string when the branch is absent.
    pub fn zhi(&self) -> (r: &'static str)
        requires
            self.wf(),
        ensures
            r@ == branch_name(self.1 as int),
    {
        match self.1 {
            0 => {
                proof {
                    reveal_strlit("子");
                }
                "子"
            },
            1 => {
                proof {
                    reveal_strlit("丑");
                }
                "丑"
            },
            2 => {
                proof {
                    reveal_strlit("寅");
                }
                "寅"
            },
            3 => {
                proof {
                    reveal_strlit("卯");
                }
                "卯"
            },
            4 => {
                proof {
                    reveal_strlit("辰");
                }
                "辰"
            },
            5 => {
                proof {
                    reveal_strlit("巳");
                }
                "巳"
            },
            6 => {
                proof {
                    reveal_strlit("午");
                }
                "午"
            },
            7 => {
                proof {
                    reveal_strlit("未");
                }
                "未"
            },
            8 => {
                proof {
                    reveal_strlit("申");
                }
                "申"
            },
            9 => {
                proof {
                    reveal_strlit("酉");
                }
                "酉"
            },
            10 => {
                proof {
                    reveal_strlit("戌");
                }
                "戌"
            },
            11 => {
                proof {
                    reveal_strlit("亥");
                }
                "亥"
            },
            _ => {
                proof {
                    reveal_strlit("");
                }
                ""
            },
        }
    }

    /// The pair written out: stem character then branch character.
    pub fn name(&self) -> (r: String)
        requires
            self.wf(),
        ensures
            r@ == stem_name(self.0 as int) + branch_name(self.1 as int),
    {
        let s = String::from_str(self.gan());
        s.concat(self.zhi())
    }
}

proof fn lemma_step_mod(x: int, n: int)
    requires
        n > 1,
    ensures
        (x % n + 1) % n == (x + 1) % n,
        (x % n + n - 1) % n == (x - 1) % n,
{
    lemma_add_mod_noop(x, 1, n);
    lemma_small_mod(1, n as nat);
    lemma_add_mod_noop(x, n - 1, n);
    lemma_small_mod((n - 1) as nat, n as nat);
    lemma_mod_add_multiples_vanish(x - 1, n);
}

/// Minutes in a day.
pub const MINUTES_PER_DAY: i32 = 1440;

/// 23:00 in minutes: from then on the day's pair is the next day's.
pub const NIGHT_START: i32 = 1380;

/// The pair of day number `j`: day 0 is stem 9, branch 1.
pub open spec fn day_ganzhi(j: int) -> GanZhi {
    GanZhi(((j + 9) % 10) as i32, ((j + 1) % 12) as i32)
}

/// The pair of year `y` (a year starting at the beginning of spring): year 4 is the first pair.
pub open spec fn year_ganzhi(y: int) -> GanZhi {
    GanZhi(((y + 6) % 10) as i32, ((y + 8) % 12) as i32)
}

/// The pair of month `n` (counted in sectional terms from the one before
/// the winter solstice, which opens month 1) of calendar year `y`.
pub open spec fn month_ganzhi(y: int, n: int) -> GanZhi {
    GanZhi((((y + 1) * 2 + n + 9) % 10) as i32, ((n + 11) % 12) as i32)
}

/// The branch of the double hour holding minute `t` of the day; 23:00 onwards
/// is already the first branch.
pub open spec fn hour_branch(t: int) -> int {
    ((t + 60) / 120) % 12
}

/// The pair of the double hour holding minute `t` of a day whose pair is `d`.
pub open spec fn hour_ganzhi(d: GanZhi, t: int) -> GanZhi {
    GanZhi(((d.0 * 2 + hour_branch(t)) % 10) as i32, hour_branch(t) as i32)
}

/// The residue of `a` modulo `n`, in `0..n`.
fn residue(a: i64, n: i32) -> (r: i32)
    requires
        0 < n <= 12,
        -10_000_000_000 <= a <= 10_000_000_000,
    ensures
        r == (a as int) % (n as int),
        0 <= r < n,
{
    if a >= 0 {
        (a % (n as i64)) as i32
    } else {
        let b: i64 = -a;
        let m: i64 = b % (n as i64);
        proof {
            if m != 0 {
                lemma_fundamental_div_mod(b as int, n as int);
                let q: int = (b as int) / (n as int);
                assert(a == (-q - 1) * n + (n - m)) by (nonlinear_arith)
                    requires
                        b == n * q + m,
                        a == -b,
                ;
                lemma_fundamental_div_mod_converse(a as int, n as int, -q - 1, n - m);
            } else {
                lemma_fundamental_div_mod(b as int, n as int);
                let q: int = (b as int) / (n as int);
                assert(a == (-q) * n + 0) by (nonlinear_arith)
                    requires
                        b == n * q + m,
                        m == 0,
                        a == -b,
                ;
                lemma_fundamental_div_mod_converse(a as int, n as int, -q, 0);
            }
        }
        if m == 0 {
            0
        } else {
            (n as i64 - m) as i32
        }
    }
}

impl GanZhi {
    /// The pair of day number `j`.
    pub fn of_day(j: i32) -> (r: GanZhi)
        ensures
            r == day_ganzhi(j as int),
            r.wf(),
    {
        GanZhi(residue(j as i64 + 9, 10), residue(j as i64 + 1, 12))
    }

    /// The pair of year `y`.
    pub fn of_year(y: i32) -> (r: GanZhi)
        ensures
            r == year_ganzhi(y as int),
            r.wf(),
    {
        GanZhi(residue(y as i64 + 6, 10), residue(y as i64 + 8, 12))
    }

    /// The pair of month `n` of calendar year `y`.
    pub fn of_month(y: i32, n: i32) -> (r: GanZhi)
        requires
            -1_000_000 <= y <= 1_000_000,
            -1_000_000 <= n <= 1_000_000,
        ensures
            r == month_ganzhi(y as int, n as int),
            r.wf(),
    {
        GanZhi(residue((y as i64 + 1) * 2 + n as i64 + 9, 10), residue(n as i64 + 11, 12))
    }

    /// The pair of the double hour holding minute `t` of a day whose pair is `self`.
    pub fn of_hour(&self, t: i32) -> (r: GanZhi)
        requires
            0 <= self.0 < 10,
            0 <= t < MINUTES_PER_DAY,
        ensures
            r == hour_ganzhi(*self, t as int),
            r.wf(),
    {
        let b: i32 = ((t + 60) / 120) % 12;
        GanZhi((self.0 * 2 + b) % 10, b)
    }
}

/// The pair of the next day follows the pair of this one.
pub proof fn lemma_day_ganzhi_next(j: int)
    ensures
        day_ganzhi(j).next() == day_ganzhi(j + 1),
        day_ganzhi(j).wf(),
{
    lemma_step_mod(j + 9, 10);
    lemma_step_mod(j + 1, 12);
    lemma_mod_add_multiples_vanish(j + 9, 10);
}

/// The pair of the next month follows the pair of this one, and the pair
/// of the next year follows the pair of this one.
pub proof fn lemma_month_year_ganzhi_next(y: int, n: int)
    ensures
        month_ganzhi(y, n).next() == month_ganzhi(y, n + 1),
        year_ganzhi(y).next() == year_ganzhi(y + 1),
{
    lemma_step_mod((y + 1) * 2 + n + 9, 10);
    lemma_step_mod(n + 11, 12);
    lemma_step_mod(y + 6, 10);
    lemma_step_mod(y + 8, 12);
}

/// `n` steps forward from `g`.
pub open spec fn advance(g: GanZhi, n: nat) -> GanZhi
    decreases n,
{
    if n == 0 {
        g
    } else {
        advance(g, (n - 1) as nat).next()
    }
}

/// `n` steps backward from `g`.
pub open spec fn retreat(g: GanZhi, n: nat) -> GanZhi
    decreases n,
{
    if n == 0 {
        g
    } else {
        retreat(g, (n - 1) as nat).prev()
    }
}

/// Stepping forward then back, or back then forward, returns the pair itself.
pub proof fn lemma_inc_dec_inverse(g: GanZhi)
    requires
        g.wf(),
    ensures
        g.next().prev() == g,
        g.prev().next() == g,
{
}

/// Every step keeps a valid pair valid, and `n` steps forward move a present
/// stem to `(stem + n) % 10` and a present branch to `(branch + n) % 12`.
pub proof fn lemma_advance(g: GanZhi, n: nat)
    requires
        g.wf(),
    ensures
        advance(g, n).wf(),
        advance(g, n).0 == (if g.0 == -1 { -1 } else { (g.0 + n) % 10 }),
        advance(g, n).1 == (if g.1 == -1 { -1 } else { (g.1 + n) % 12 }),
    decreases n,
{
    if n > 0 {
        lemma_advance(g, (n - 1) as nat);
        lemma_step_mod(g.0 + n - 1, 10);
        lemma_step_mod(g.1 + n - 1, 12);
    }
}

/// `n` steps backward keep a valid pair valid and never move a sentinel.
pub proof fn lemma_retreat(g: GanZhi, n: nat)
    requires
        g.wf(),
    ensures
        retreat(g, n).wf(),
        g.0 == -1 ==> retreat(g, n).0 == -1,
        g.1 == -1 ==> retreat(g, n).1 == -1,
        g.0 != -1 ==> retreat(g, n).0 == (g.0 - n) % 10,
        g.1 != -1 ==> retreat(g, n).1 == (g.1 - n) % 12,
    decreases n,
{
    if n > 0 {
        lemma_retreat(g, (n - 1) as nat);
        lemma_step_mod(g.0 - (n - 1), 10);
        lemma_step_mod(g.1 - (n - 1), 12);
    }
}

/// Ten steps forward bring the stem back, twelve bring the branch back, and
/// sixty bring the whole pair back.
pub proof fn lemma_cycle_closure(g: GanZhi)
    requires
        g.wf(),
    ensures
        advance(g, 10).0 == g.0,
        advance(g, 12).1 == g.1,
        advance(g, 60) == g,
{
    lemma_advance(g, 10);
    lemma_advance(g, 12);
    lemma_advance(g, 60);
}

/// A sentinel axis stays -1 through any number of steps either way.
pub proof fn lemma_sentinel_kept(g: GanZhi, n: nat)
    requires
        g.wf(),
    ensures
        g.0 == -1 ==> advance(g, n).0 == -1 && retreat(g, n).0 == -1,
        g.1 == -1 ==> advance(g, n).1 == -1 && retreat(g, n).1 == -1,
{
    lemma_advance(g, n);
    lemma_retreat(g, n);
}

} // verus!
