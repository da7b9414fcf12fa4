//! Counting the images of a query page by page, and picking random pages.
//!
//! An image board answers a query page by page, at most `page_size` images
//! per page. The number of images is found by probing pages 1, 2, 4, 8, ...
//! until a page is not full; an empty page then starts a binary search for
//! the last page that is not empty, and that page's size gives the count.

use vstd::prelude::*;

verus! {

/// Where a count stands.
#[derive(Clone, Copy, Debug, PartialEq, Eq, Structural)]
pub enum CounterPhase {
    /// Probing pages 1, 2, 4, ... while they are full.
    Doubling,
    /// Binary search for the last page that is not empty, which lies in
    /// `low..=high`; the page probed is the middle one.
    Narrowing { low: u64, high: u64 },
    /// Probing the last page that is not empty.
    LastPage,
    /// The count is known.
    Done,
}

/// The state of a count: the page to probe next and, when done, the total.
#[derive(Clone, Copy, Debug, PartialEq, Eq, Structural)]
pub struct PageCounter {
    /// The most images a page holds.
    pub page_size: u64,
    /// Whether an empty first page ends the count with zero images.
    pub empty_first_page_means_none: bool,
    pub phase: CounterPhase,
    /// The page to probe next.
    pub page: u64,
    /// The number of images, once the phase is `Done`.
    pub total: u64,
}

/// What to do after a probe: fetch another page, or stop with the count.
#[derive(Clone, Copy, Debug, PartialEq, Eq, Structural)]
pub enum CountStep {
    Fetch(u64),
    Finished(u64),
}

/// The middle page of `low..=high`, rounded up.
pub open spec fn mid_page(low: int, high: int) -> int {
    (low + high + 1) / 2
}

/// The number of images on page `p` (from 1) of a query that has `n`
/// images, with at most `m` on a page.
pub open spec fn page_len(n: nat, m: nat, p: int) -> nat {
    if n >= p * m {
        m
    } else if n > (p - 1) * m {
        (n - (p - 1) * m) as nat
    } else {
        0
    }
}

impl PageCounter {
    /// The counter that starts a count: page 1 is probed first.
    pub open spec fn start(page_size: u64, empty_first_page_means_none: bool) -> PageCounter {
        PageCounter {
            page_size,
            empty_first_page_means_none,
            phase: CounterPhase::Doubling,
            page: 1,
            total: 0,
        }
    }

    /// The state after the binary search settles on `low..=high`.
    pub open spec fn narrowed(self, low: int, high: int) -> PageCounter {
        if low < high {
            PageCounter {
                phase: CounterPhase::Narrowing { low: low as u64, high: high as u64 },
                page: mid_page(low, high) as u64,
                ..self
            }
        } else {
            PageCounter { phase: CounterPhase::LastPage, page: low as u64, ..self }
        }
    }

    /// The state after page `self.page` was seen to hold `len` images.
    pub open spec fn next(self, len: u64) -> PageCounter {
        let m = self.page_size;
        let p = self.page;
        match self.phase {
            CounterPhase::Doubling => {
                if 0 < len && len < m {
                    PageCounter {
                        phase: CounterPhase::Done,
                        total: ((p - 1) * m + len) as u64,
                        ..self
                    }
                } else if len == 0 {
                    if self.empty_first_page_means_none && p == 1 {
                        PageCounter { phase: CounterPhase::Done, total: 0, ..self }
                    } else {
                        self.narrowed((p / 2) as int, p as int)
                    }
                } else {
                    PageCounter { page: (p * 2) as u64, ..self }
                }
            },
            CounterPhase::Narrowing { low, high } => {
                if len == 0 {
                    self.narrowed(low as int, p - 1)
                } else {
                    self.narrowed(p as int, high as int)
                }
            },
            CounterPhase::LastPage => {
                PageCounter { phase: CounterPhase::Done, total: ((p - 1) * m + len) as u64, ..self }
            },
            CounterPhase::Done => self,
        }
    }

    /// Whether the arithmetic of `narrowed(low, high)` stays in range.
    pub open spec fn narrowing_fits(low: int, high: int) -> bool {
        low < high ==> low + high + 1 <= u64::MAX
    }

    /// The inputs on which a step is taken without overflow: the count is
    /// not done and the page numbers and the total it computes fit in `u64`.
    pub open spec fn step_defined(self, len: u64) -> bool {
        let m = self.page_size;
        let p = self.page;
        match self.phase {
            CounterPhase::Doubling => {
                &&& p >= 1
                &&& (0 < len && len < m) ==> (p - 1) * m + len <= u64::MAX
                &&& (len == 0 && !(self.empty_first_page_means_none && p == 1))
                    ==> Self::narrowing_fits((p / 2) as int, p as int)
                &&& (len != 0 && len >= m) ==> p * 2 <= u64::MAX
            },
            CounterPhase::Narrowing { low, high } => {
                &&& p >= 1
                &&& len == 0 ==> Self::narrowing_fits(low as int, p - 1)
                &&& len != 0 ==> Self::narrowing_fits(p as int, high as int)
            },
            CounterPhase::LastPage => p >= 1 && (p - 1) * m + len <= u64::MAX,
            CounterPhase::Done => false,
        }
    }

    /// What a step returns for the state it leads to.
    pub open spec fn step_result(self) -> CountStep {
        if self.phase is Done {
            CountStep::Finished(self.total)
        } else {
            CountStep::Fetch(self.page)
        }
    }

    /// Starts a count with at most `page_size` images on a page.
    pub fn new(page_size: u64, empty_first_page_means_none: bool) -> (c: PageCounter)
        ensures
            c == PageCounter::start(page_size, empty_first_page_means_none),
    {
        PageCounter {
            page_size,
            empty_first_page_means_none,
            phase: CounterPhase::Doubling,
            page: 1,
            total: 0,
        }
    }

    /// The page to probe next.
    pub fn page(&self) -> (p: u64)
        ensures
            p == self.page,
    {
        self.page
    }

    /// Whether a step on `len` is defined, as `step_defined` says.
    pub fn can_step(&self, len: u64) -> (b: bool)
        ensures
            b == self.step_defined(len),
    {
        let m = self.page_size;
        let p = self.page;
        match self.phase {
            CounterPhase::Doubling => {
                if p < 1 {
                    false
                } else if 0 < len && len < m {
                    Self::product_plus_fits(p - 1, m, len)
                } else if len == 0 {
                    if self.empty_first_page_means_none && p == 1 {
                        true
                    } else {
                        Self::fits(p / 2, p)
                    }
                } else {
                    p <= u64::MAX / 2
                }
            },
            CounterPhase::Narrowing { low, high } => {
                if p < 1 {
                    false
                } else if len == 0 {
                    Self::fits(low, p - 1)
                } else {
                    Self::fits(p, high)
                }
            },
            CounterPhase::LastPage => {
                p >= 1 && Self::product_plus_fits(p - 1, m, len)
            },
            CounterPhase::Done => false,
        }
    }

    fn product_plus_fits(a: u64, b: u64, c: u64) -> (r: bool)
        ensures
            r == (a * b + c <= u64::MAX),
    {
        proof {
            assert(a * b <= 0xffff_ffff_ffff_ffffu64 as int * 0xffff_ffff_ffff_ffffu64 as int)
                by (nonlinear_arith)
                requires
                    a <= 0xffff_ffff_ffff_ffffu64,
                    b <= 0xffff_ffff_ffff_ffffu64,
            ;
        }
        (a as u128) * (b as u128) + (c as u128) <= u64::MAX as u128
    }

    fn fits(low: u64, high: u64) -> (b: bool)
        ensures
            b == Self::narrowing_fits(low as int, high as int),
    {
        low >= high || low as u128 + high as u128 + 1 <= u64::MAX as u128
    }

    fn narrow(&mut self, low: u64, high: u64)
        requires
            Self::narrowing_fits(low as int, high as int),
        ensures
            *final(self) == old(self).narrowed(low as int, high as int),
    {
        if low < high {
            self.phase = CounterPhase::Narrowing { low, high };
            self.page = (low + high + 1) / 2;
        } else {
            self.phase = CounterPhase::LastPage;
            self.page = low;
        }
    }

    /// Takes in that page `self.page` holds `len` images, and says which
    /// page to probe next or what the count is.
    pub fn step(&mut self, len: u64) -> (r: CountStep)
        requires
            old(self).step_defined(len),
        ensures
            *final(self) == old(self).next(len),
            r == final(self).step_result(),
    {
        let m = self.page_size;
        let p = self.page;
        match self.phase {
            CounterPhase::Doubling => {
                if 0 < len && len < m {
                    self.phase = CounterPhase::Done;
                    self.total = (p - 1) * m + len;
                } else if len == 0 {
                    if self.empty_first_page_means_none && p == 1 {
                        self.phase = CounterPhase::Done;
                        self.total = 0;
                    } else {
                        self.narrow(p / 2, p);
                    }
                } else {
                    self.page = p * 2;
                }
            },
            CounterPhase::Narrowing { low, high } => {
                if len == 0 {
                    self.narrow(low, p - 1);
                } else {
                    self.narrow(p, high);
                }
            },
            CounterPhase::LastPage => {
                self.phase = CounterPhase::Done;
                self.total = (p - 1) * m + len;
            },
            CounterPhase::Done => {},
        }
        if self.phase == CounterPhase::Done {
            CountStep::Finished(self.total)
        } else {
            CountStep::Fetch(self.page)
        }
    }
}

/// The largest number of full pages (images divided by the page size) for
/// which the count's page numbers are sure to fit in `u64`.
pub open spec fn count_bound() -> int {
    0x3fff_ffff_ffff_ffff
}

/// The number of binary digits of `x` (none for zero).
pub open spec fn bits(x: nat) -> nat
    decreases x,
{
    if x == 0 {
        0
    } else {
        1 + bits(x / 2)
    }
}

proof fn lemma_bits_monotone(x: nat, y: nat)
    requires
        x <= y,
    ensures
        bits(x) <= bits(y),
    decreases y,
{
    if x > 0 {
        lemma_bits_monotone(x / 2, y / 2);
    }
}

proof fn lemma_bits_double(x: nat)
    requires
        x >= 1,
    ensures
        bits(2 * x) == bits(x) + 1,
        bits(2 * x + 1) == bits(x) + 1,
{
    assert((2 * x) / 2 == x);
    assert((2 * x + 1) / 2 == x);
}

/// `x <= n / m` where `x * m <= n`.
proof fn lemma_le_quotient(x: int, m: int, n: int)
    requires
        x >= 0,
        m >= 1,
        n >= 0,
        x * m <= n,
    ensures
        x <= n / m,
{
    assert(x <= n / m) by (nonlinear_arith)
        requires
            x >= 0,
            m >= 1,
            n >= 0,
            x * m <= n,
    ;
}

impl PageCounter {
    /// The invariant of a count of a query that has `n` images, answered
    /// page by page as `page_len` says.
    pub open spec fn tracks(self, n: nat) -> bool {
        let m = self.page_size as int;
        let p = self.page as int;
        &&& m >= 1
        &&& n <= u64::MAX
        &&& n / (m as nat) <= count_bound()
        &&& (self.empty_first_page_means_none || n >= 1)
        &&& match self.phase {
            CounterPhase::Doubling => p >= 1 && (p == 1 || (p % 2 == 0 && (p / 2) * m <= n)),
            CounterPhase::Narrowing { low, high } => {
                &&& n >= 1
                &&& low < high
                &&& p == mid_page(low as int, high as int)
                &&& (low == 0 || (low - 1) * m < n)
                &&& n <= high * m
                &&& high <= 2 * (n / (m as nat)) + 1
            },
            CounterPhase::LastPage => p >= 1 && (p - 1) * m < n && n <= p * m,
            CounterPhase::Done => self.total == n,
        }
    }

    /// An upper bound on the probes a count of `n` images still makes:
    /// while doubling, the doublings left before the page passes
    /// `n / page_size` and the binary search after them; while narrowing,
    /// one probe per binary digit of the interval's width and one for the
    /// last page.
    pub open spec fn probes_left(self, n: nat) -> nat {
        let b = bits(n / (self.page_size as nat));
        match self.phase {
            CounterPhase::Doubling => (2 * b + 3 - bits(self.page as nat)) as nat,
            CounterPhase::Narrowing { low, high } => bits((high - low) as nat) + 1,
            CounterPhase::LastPage => 1,
            CounterPhase::Done => 0,
        }
    }

    /// The state after `fuel` probes of a query that has `n` images.
    pub open spec fn run(self, n: nat, fuel: nat) -> PageCounter
        decreases fuel,
    {
        if fuel == 0 || self.phase is Done {
            self
        } else {
            self.next(page_len(n, self.page_size as nat, self.page as int) as u64).run(
                n,
                (fuel - 1) as nat,
            )
        }
    }
}

/// Each probe of a query that has `n` images is answered with a page size
/// on which the step is defined, keeps the invariant, and brings the count
/// closer to its end.
pub proof fn lemma_count_step(c: PageCounter, n: nat)
    requires
        c.tracks(n),
        !(c.phase is Done),
    ensures
        ({
            let len = page_len(n, c.page_size as nat, c.page as int);
            &&& len <= c.page_size
            &&& c.probes_left(n) >= 1
            &&& c.step_defined(len as u64)
            &&& c.next(len as u64).tracks(n)
            &&& !(c.next(len as u64).phase is Done) ==> c.next(len as u64).probes_left(n)
                < c.probes_left(n)
        }),
{
    let m = c.page_size as int;
    let p = c.page as int;
    let len = page_len(n, m as nat, p);
    assert(p * m - (p - 1) * m == m) by (nonlinear_arith);
    assert(p >= 1 && m >= 1 ==> (p - 1) * m <= p * m) by (nonlinear_arith);
    assert(len == 0 <==> n <= (p - 1) * m) by {
        if p >= 1 && m >= 1 {
            assert((p - 1) * m <= p * m) by (nonlinear_arith)
                requires
                    p >= 1,
                    m >= 1,
            ;
        }
    }
    let q = n / (m as nat);
    let b = bits(q);
    assert(bits(1) == 1) by {
        assert(bits(0) == 0);
    }
    assert(bits(2 * q + 1) == b + 1) by {
        if q >= 1 {
            lemma_bits_double(q);
        } else {
            assert(2 * q + 1 == 1);
        }
    }
    match c.phase {
        CounterPhase::Doubling => {
            assert(p <= 2 * q + 1) by {
                if p != 1 {
                    lemma_le_quotient(p / 2, m, n as int);
                }
            }
            lemma_bits_monotone(p as nat, 2 * q + 1);
            if 0 < len && len < m {
                assert(c.next(len as u64).total == n);
            } else if len == 0 {
                if c.empty_first_page_means_none && p == 1 {
                    assert(n == 0) by (nonlinear_arith)
                        requires
                            n <= (p - 1) * m,
                            p == 1,
                    ;
                } else {
                    assert(n >= 1);
                    if p >= 2 {
                        assert((p / 2 - 1) * m < (p / 2) * m) by (nonlinear_arith)
                            requires
                                m >= 1,
                        ;
                    } else {
                        assert(n <= 0 * m);
                        assert(0 * m == 0);
                    }
                    lemma_bits_monotone((p - p / 2) as nat, p as nat);
                }
            } else {
                assert(n >= p * m);
                lemma_le_quotient(p, m, n as int);
                assert((p * 2) / 2 == p);
                assert(((p * 2) / 2) * m <= n);
                lemma_bits_double(p as nat);
                lemma_bits_monotone((2 * p) as nat, 2 * q + 1);
            }
        },
        CounterPhase::Narrowing { low, high } => {
            let d = (high - low) as nat;
            assert(bits(d) == 1 + bits(d / 2));
            if len == 0 {
                if low as int == p - 1 && low == 0 {
                    assert(0 * m == 0);
                }
                if low < p - 1 {
                    lemma_bits_monotone((p - 1 - low) as nat, d / 2);
                }
            } else {
                if p < high {
                    lemma_bits_monotone((high - p) as nat, d / 2);
                }
            }
        },
        CounterPhase::LastPage => {
            if n >= p * m {
                assert((p - 1) * m + m == p * m) by (nonlinear_arith);
            }
        },
        CounterPhase::Done => {},
    }
}

/// Runs of at least `probes_left` probes from a state that keeps the
/// invariant end with the exact count.
proof fn lemma_run_ends(c: PageCounter, n: nat, fuel: nat)
    requires
        c.tracks(n),
        fuel >= c.probes_left(n),
    ensures
        c.run(n, fuel).phase is Done,
        c.run(n, fuel).total == n,
    decreases fuel,
{
    if c.phase is Done {
    } else {
        lemma_count_step(c, n);
        let next = c.next(page_len(n, c.page_size as nat, c.page as int) as u64);
        assert(fuel > 0);
        lemma_run_ends(next, n, (fuel - 1) as nat);
        assert(c.run(n, fuel) == next.run(n, (fuel - 1) as nat));
    }
}

/// Against a board that answers every page as a query with `n` images
/// would, a count started at page 1 ends within `probes_left` probes, that
/// is at most `2 * bits(n / page_size) + 2`, logarithmic in the number of
/// pages, and within one probe when there are fewer images than a page
/// holds; the number it reports is exactly `n`. A count that does not stop on an
/// empty first page needs at least one image (with none it asks for page 0).
pub proof fn lemma_count_is_exact(page_size: u64, empty_first_page_means_none: bool, n: nat)
    requires
        page_size >= 1,
        n <= u64::MAX,
        n / (page_size as nat) <= count_bound(),
        empty_first_page_means_none || n >= 1,
    ensures
        ({
            let c = PageCounter::start(page_size, empty_first_page_means_none);
            let r = c.run(n, c.probes_left(n));
            &&& c.probes_left(n) == 2 * bits(n / (page_size as nat)) + 2
            &&& r.phase is Done
            &&& r.total == n
            &&& n < page_size ==> c.run(n, 1) == r
        }),
{
    assert(bits(1) == 1) by {
        assert(bits(0) == 0);
    }
    let c = PageCounter::start(page_size, empty_first_page_means_none);
    lemma_run_ends(c, n, c.probes_left(n));
    if n < page_size {
        let m = page_size as nat;
        assert(1 * m == m && 0 * m == 0);
        let nx = c.next(page_len(n, m, 1) as u64);
        assert(nx.phase is Done);
        let fuel = c.probes_left(n);
        assert(fuel >= 1);
        assert(c.run(n, 1) == nx.run(n, 0));
        assert(c.run(n, fuel) == nx.run(n, (fuel - 1) as nat));
    }
}

/// A page drawn at random from `1..=bound` by the random number generator.
/// Only `random_page` makes one, so a page held in a `RandomPage` is one
/// that the generator drew.
#[derive(Debug)]
pub struct RandomPage {
    page: u64,
    bound: u64,
}

impl RandomPage {
    /// The page drawn.
    pub closed spec fn drawn(self) -> u64 {
        self.page
    }

    /// The end of the range it was drawn from.
    pub closed spec fn range_end(self) -> u64 {
        self.bound
    }

    /// The page drawn.
    pub fn page(&self) -> (p: u64)
        ensures
            p == self.drawn(),
    {
        self.page
    }
}

/// Calls `fastrand::u64` on `1..=total`, which returns a random number in
/// that range; it panics on an empty range, which `requires` leaves out.
/// The number comes back as a `RandomPage` with the range's end. Which
/// number it is is not stated: it depends on the generator's state.
#[verifier::external_body]
pub(crate) fn random_page(total: u64) -> (r: RandomPage)
    requires
        total >= 1,
    ensures
        1 <= r.drawn() <= total,
        r.range_end() == total,
{
    RandomPage { page: fastrand::u64(1..=total), bound: total }
}

} // verus!
