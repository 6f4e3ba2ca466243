//! The game's fictional calendar: twelve months of fixed but irregular
//! lengths (months five and six are both thirty days long), grouped into
//! seasons. A season advances whenever the month rolls past twelve.
//!
//! Day addition only normalizes positive overflow, and `diff_day` ignores
//! the season and loses the sign when the months are equal; both quirks are
//! part of the calendar's observable behaviour and are kept as they are.

use crate::text::{dec_chars, push_dec};
use vstd::prelude::*;
use vstd::string::StringExecFns;

verus! {

/// A date: `season`, `month` in `[1, 12]`, `day` in `[1, month_len(month)]`.
///
/// The all-zero value produced by `new_empty` is a placeholder and not a
/// well-formed date.
#[derive(Debug, Clone, Copy, PartialEq, Eq, Hash, Structural)]
pub struct GensoDate {
    pub season: u32,
    pub month: u8,
    pub day: u8,
}

/// Length of a month, 1-indexed; out-of-range months have length zero.
pub open spec fn month_len(m: int) -> int {
    if m == 1 {
        31
    } else if m == 2 {
        28
    } else if m == 3 {
        31
    } else if m == 4 {
        30
    } else if m == 5 {
        30
    } else if m == 6 {
        30
    } else if m == 7 {
        31
    } else if m == 8 {
        31
    } else if m == 9 {
        30
    } else if m == 10 {
        31
    } else if m == 11 {
        30
    } else if m == 12 {
        31
    } else {
        0
    }
}

/// Days in the months strictly before month `m` within one season.
pub open spec fn days_before_month(m: int) -> int
    decreases m,
{
    if m <= 1 {
        0
    } else {
        days_before_month(m - 1) + month_len(m - 1)
    }
}

/// Total days in one season, the sum of all twelve month lengths.
pub open spec fn season_len() -> int {
    364
}

/// The cumulative day table, stated once so that callers have every value
/// at hand without unrolling the recursion themselves.
pub proof fn lemma_days_before_month_table()
    ensures
        days_before_month(1) == 0,
        days_before_month(2) == 31,
        days_before_month(3) == 59,
        days_before_month(4) == 90,
        days_before_month(5) == 120,
        days_before_month(6) == 150,
        days_before_month(7) == 180,
        days_before_month(8) == 211,
        days_before_month(9) == 242,
        days_before_month(10) == 272,
        days_before_month(11) == 303,
        days_before_month(12) == 333,
        days_before_month(13) == season_len(),
{
    reveal_with_fuel(days_before_month, 14);
}

/// The fixed campaign epoch: the reference point of `is_week_first` and
/// `first_day`.
pub open spec fn epoch_date() -> GensoDate {
    GensoDate { season: 112, month: 7, day: 23 }
}

impl GensoDate {
    /// Well-formed: the month is in range and the day fits the month.
    pub open spec fn wf(self) -> bool {
        &&& 1 <= self.month <= 12
        &&& 1 <= self.day <= month_len(self.month as int)
    }

    /// Position of the date on one absolute day line: whole seasons first,
    /// then whole months, then the day of the month.
    pub open spec fn abs_day(self) -> int {
        (self.season as int) * season_len() + self.month_day_index()
    }

    /// Day position within the season alone; `diff_day` compares dates by
    /// this value and by nothing else.
    pub open spec fn month_day_index(self) -> int {
        days_before_month(self.month as int) + self.day as int
    }

    pub fn new(season: u32, month: u8, day: u8) -> (r: GensoDate)
        ensures
            r == (GensoDate { season, month, day }),
    {
        GensoDate { season, month, day }
    }

    /// The zeroed placeholder; not a well-formed date.
    pub fn new_empty() -> (r: GensoDate)
        ensures
            r == (GensoDate { season: 0, month: 0, day: 0 }),
            !r.wf(),
    {
        GensoDate { season: 0, month: 0, day: 0 }
    }
}

/// Executable month-length table.
pub fn days_in_month(m: u8) -> (r: u8)
    requires
        1 <= m <= 12,
    ensures
        r as int == month_len(m as int),
{
    match m {
        1 => 31,
        2 => 28,
        3 => 31,
        4 => 30,
        5 => 30,
        6 => 30,
        7 => 31,
        8 => 31,
        9 => 30,
        10 => 31,
        11 => 30,
        _ => 31,
    }
}

impl GensoDate {
    /// Advances the date by `day` days, rolling months and seasons forward.
    ///
    /// Only non-negative amounts are supported: the algorithm normalizes
    /// positive overflow alone. The two upper bounds keep the running
    /// total inside `i32` and the season inside `u32`.
    pub fn add_day(&mut self, day: i32)
        requires
            old(self).wf(),
            0 <= day,
            day <= i32::MAX - 31,
            old(self).abs_day() + day <= u32::MAX * season_len(),
        ensures
            final(self).wf(),
            final(self).abs_day() == old(self).abs_day() + day,
            final(self).season >= old(self).season,
            day == 0 ==> *final(self) == *old(self),
    {
        proof {
            lemma_days_before_month_table();
        }
        let mut day = day;
        let ghost day0 = day as int;
        let ghost total = old(self).abs_day() + day0;
        while self.day as i32 + day > days_in_month(self.month) as i32
            invariant
                1 <= self.month <= 12,
                0 <= self.day as int <= month_len(self.month as int),
                0 <= day as int <= day0,
                day0 <= i32::MAX - 31,
                self.day == 0 ==> day > 0,
                (self.season as int) * season_len() + days_before_month(self.month as int)
                    + self.day as int + day as int == total,
                total <= u32::MAX * season_len(),
                self.season >= old(self).season,
                (day as int == day0 && *self == *old(self)) || self.day == 0,
            decreases day, self.day,
        {
            proof {
                lemma_days_before_month_table();
            }
            let dm = days_in_month(self.month);
            day = day - (dm as i32 - self.day as i32);
            self.day = 0;
            self.month = self.month + 1;
            if self.month > 12 {
                proof {
                    assert((self.season as int + 1) * season_len() <= total);
                }
                self.season = self.season + 1;
                self.month = self.month % 12;
            }
        }
        self.day = self.day + day as u8;
    }

    /// `add_day` in consuming form, for expression-style chaining.
    pub fn add_day_chain(self, day: i32) -> (r: GensoDate)
        requires
            self.wf(),
            0 <= day,
            day <= i32::MAX - 31,
            self.abs_day() + day <= u32::MAX * season_len(),
        ensures
            r.wf(),
            r.abs_day() == self.abs_day() + day,
    {
        let mut date = self;
        date.add_day(day);
        date
    }
}

/// A well-formed date is determined by its absolute day position: the
/// day line has exactly one date on each point.
pub proof fn lemma_abs_day_determines_date(a: GensoDate, b: GensoDate)
    requires
        a.wf(),
        b.wf(),
        a.abs_day() == b.abs_day(),
    ensures
        a == b,
{
    lemma_days_before_month_table();
    assert(1 <= a.month_day_index() <= season_len());
    assert(1 <= b.month_day_index() <= season_len());
    assert((a.season as int - b.season as int) * season_len() == b.month_day_index()
        - a.month_day_index()) by (nonlinear_arith)
        requires
            (a.season as int) * season_len() + a.month_day_index() == (b.season as int)
                * season_len() + b.month_day_index(),
    ;
    assert(a.season == b.season);
    assert(a.month == b.month);
}

/// Day distance as `diff_day` reports it: the difference of the positions
/// within the season when the months differ, and the absolute difference
/// of the day fields when they are equal. Seasons are ignored entirely,
/// and the sign is lost on equal months; both by design.
pub open spec fn spec_diff_day(a: GensoDate, b: GensoDate) -> int {
    if a.month == b.month {
        if a.day > b.day {
            a.day as int - b.day as int
        } else {
            b.day as int - a.day as int
        }
    } else {
        b.month_day_index() - a.month_day_index()
    }
}

impl GensoDate {
    /// Signed day distance from `self` to `date2`; see `spec_diff_day` for
    /// the exact (and deliberately quirky) meaning.
    pub fn diff_day(&self, date2: &GensoDate) -> (r: i32)
        requires
            self.wf(),
            date2.wf(),
        ensures
            r as int == spec_diff_day(*self, *date2),
            -364 < r && r < 364,
    {
        proof {
            lemma_days_before_month_table();
        }
        if self.month < date2.month {
            let mut diff: i32 = days_in_month(self.month) as i32 - self.day as i32;
            let mut m: u8 = self.month + 1;
            while m < date2.month
                invariant
                    self.wf(),
                    date2.wf(),
                    self.month < m <= date2.month,
                    diff as int == days_before_month(m as int) - self.month_day_index(),
                    -364 <= diff as int <= 364,
                decreases date2.month as int - m as int,
            {
                proof {
                    lemma_days_before_month_table();
                }
                diff = diff + days_in_month(m) as i32;
                m = m + 1;
            }
            diff + date2.day as i32
        } else if self.month == date2.month {
            if self.day > date2.day {
                (self.day - date2.day) as i32
            } else {
                (date2.day - self.day) as i32
            }
        } else {
            let mut diff: i32 = days_in_month(date2.month) as i32 - date2.day as i32;
            let mut m: u8 = date2.month + 1;
            while m < self.month
                invariant
                    self.wf(),
                    date2.wf(),
                    date2.month < m <= self.month,
                    diff as int == days_before_month(m as int) - date2.month_day_index(),
                    -364 <= diff as int <= 364,
                decreases self.month as int - m as int,
            {
                proof {
                    lemma_days_before_month_table();
                }
                diff = diff + days_in_month(m) as i32;
                m = m + 1;
            }
            -(diff + self.day as i32)
        }
    }
}

/// Strict lexicographic "later than" on `(season, month, day)`.
pub open spec fn spec_is_past(a: GensoDate, b: GensoDate) -> bool {
    ||| a.season > b.season
    ||| (a.season == b.season && a.month > b.month)
    ||| (a.season == b.season && a.month == b.month && a.day > b.day)
}

impl GensoDate {
    /// True only if `self` is strictly later than `date`.
    pub fn is_past(&self, date: &GensoDate) -> (r: bool)
        ensures
            r == spec_is_past(*self, *date),
    {
        if self.season < date.season {
            false
        } else if self.season > date.season {
            true
        } else if self.month < date.month {
            false
        } else if self.month > date.month {
            true
        } else {
            self.day > date.day
        }
    }

    /// A week starts on every seventh day counted from the campaign epoch;
    /// divisibility of the (possibly negative) `diff_day` distance decides.
    pub fn is_week_first(&self) -> (r: bool)
        requires
            self.wf(),
        ensures
            r == (spec_diff_day(*self, epoch_date()) % 7 == 0),
    {
        let epoch = GensoDate::new(112, 7, 23);
        let diff = self.diff_day(&epoch);
        let magnitude = if diff < 0 {
            -diff
        } else {
            diff
        };
        proof {
            lemma_negated_divisibility(diff as int);
        }
        magnitude % 7 == 0
    }

    /// True exactly on the campaign epoch itself.
    pub fn first_day(&self) -> (r: bool)
        ensures
            r == (*self == epoch_date()),
    {
        *self == GensoDate::new(112, 7, 23)
    }
}

/// A day distance and its negation are divisible by seven together.
proof fn lemma_negated_divisibility(n: int)
    ensures
        ((-n) % 7 == 0) <==> (n % 7 == 0),
{
    if n % 7 == 0 {
        vstd::arithmetic::div_mod::lemma_fundamental_div_mod(n, 7);
        assert(-n == (-(n / 7)) * 7) by (nonlinear_arith)
            requires
                n == 7 * (n / 7),
        ;
        vstd::arithmetic::div_mod::lemma_mod_multiples_basic(-(n / 7), 7);
    }
    if (-n) % 7 == 0 {
        vstd::arithmetic::div_mod::lemma_fundamental_div_mod(-n, 7);
        assert(n == (-((-n) / 7)) * 7) by (nonlinear_arith)
            requires
                -n == 7 * ((-n) / 7),
        ;
        vstd::arithmetic::div_mod::lemma_mod_multiples_basic(-((-n) / 7), 7);
    }
}

/// The long rendering: season, month and day with their unit characters.
pub open spec fn spec_date_string(d: GensoDate) -> Seq<char> {
    dec_chars(d.season as int) + seq!['季', ' '] + dec_chars(d.month as int) + seq!['月', ' ']
        + dec_chars(d.day as int) + seq!['日']
}

/// The short rendering: month and day only.
pub open spec fn spec_short_date_string(d: GensoDate) -> Seq<char> {
    dec_chars(d.month as int) + seq!['月'] + dec_chars(d.day as int) + seq!['日']
}

/// Three-letter English month abbreviations; out-of-range months fall back
/// to the December abbreviation.
pub open spec fn month_eng_short(m: int) -> Seq<char> {
    if m == 1 {
        seq!['J', 'a', 'n', '.']
    } else if m == 2 {
        seq!['F', 'e', 'b', '.']
    } else if m == 3 {
        seq!['M', 'a', 'r', '.']
    } else if m == 4 {
        seq!['A', 'p', 'r', '.']
    } else if m == 5 {
        seq!['M', 'a', 'y']
    } else if m == 6 {
        seq!['J', 'u', 'n', '.']
    } else if m == 7 {
        seq!['J', 'u', 'l', '.']
    } else if m == 8 {
        seq!['A', 'u', 'g', '.']
    } else if m == 9 {
        seq!['S', 'e', 'p', '.']
    } else if m == 10 {
        seq!['O', 'c', 't', '.']
    } else if m == 11 {
        seq!['N', 'o', 'v', '.']
    } else {
        seq!['D', 'e', 'c', '.']
    }
}

impl GensoDate {
    /// The long rendering, "{season}季 {month}月 {day}日".
    pub fn to_string(&self) -> (r: String)
        ensures
            r@ == spec_date_string(*self),
    {
        let mut s = String::new();
        push_dec(&mut s, self.season as u64);
        proof {
            reveal_strlit("季 ");
            assert("季 "@ =~= seq!['季', ' ']);
        }
        s.append("季 ");
        push_dec(&mut s, self.month as u64);
        proof {
            reveal_strlit("月 ");
            assert("月 "@ =~= seq!['月', ' ']);
        }
        s.append("月 ");
        push_dec(&mut s, self.day as u64);
        proof {
            reveal_strlit("日");
            assert("日"@ =~= seq!['日']);
        }
        s.append("日");
        proof {
            assert(s@ =~= spec_date_string(*self));
        }
        s
    }

    /// The short rendering, "{month}月{day}日".
    pub fn to_short_string(&self) -> (r: String)
        ensures
            r@ == spec_short_date_string(*self),
    {
        let mut s = String::new();
        push_dec(&mut s, self.month as u64);
        proof {
            reveal_strlit("月");
            assert("月"@ =~= seq!['月']);
        }
        s.append("月");
        push_dec(&mut s, self.day as u64);
        proof {
            reveal_strlit("日");
            assert("日"@ =~= seq!['日']);
        }
        s.append("日");
        proof {
            assert(s@ =~= spec_short_date_string(*self));
        }
        s
    }

    /// The English month abbreviation, with the December fallback for
    /// months outside the calendar.
    pub fn to_month_string_eng_short(&self) -> (r: String)
        ensures
            r@ == month_eng_short(self.month as int),
    {
        match self.month {
            1 => {
                proof {
                    reveal_strlit("Jan.");
                    assert("Jan."@ =~= month_eng_short(1));
                }
                "Jan.".to_owned()
            },
            2 => {
                proof {
                    reveal_strlit("Feb.");
                    assert("Feb."@ =~= month_eng_short(2));
                }
                "Feb.".to_owned()
            },
            3 => {
                proof {
                    reveal_strlit("Mar.");
                    assert("Mar."@ =~= month_eng_short(3));
                }
                "Mar.".to_owned()
            },
            4 => {
                proof {
                    reveal_strlit("Apr.");
                    assert("Apr."@ =~= month_eng_short(4));
                }
                "Apr.".to_owned()
            },
            5 => {
                proof {
                    reveal_strlit("May");
                    assert("May"@ =~= month_eng_short(5));
                }
                "May".to_owned()
            },
            6 => {
                proof {
                    reveal_strlit("Jun.");
                    assert("Jun."@ =~= month_eng_short(6));
                }
                "Jun.".to_owned()
            },
            7 => {
                proof {
                    reveal_strlit("Jul.");
                    assert("Jul."@ =~= month_eng_short(7));
                }
                "Jul.".to_owned()
            },
            8 => {
                proof {
                    reveal_strlit("Aug.");
                    assert("Aug."@ =~= month_eng_short(8));
                }
                "Aug.".to_owned()
            },
            9 => {
                proof {
                    reveal_strlit("Sep.");
                    assert("Sep."@ =~= month_eng_short(9));
                }
                "Sep.".to_owned()
            },
            10 => {
                proof {
                    reveal_strlit("Oct.");
                    assert("Oct."@ =~= month_eng_short(10));
                }
                "Oct.".to_owned()
            },
            11 => {
                proof {
                    reveal_strlit("Nov.");
                    assert("Nov."@ =~= month_eng_short(11));
                }
                "Nov.".to_owned()
            },
            _ => {
                proof {
                    reveal_strlit("Dec.");
                    assert("Dec."@ =~= month_eng_short(self.month as int));
                }
                "Dec.".to_owned()
            },
        }
    }
}

} // verus!
