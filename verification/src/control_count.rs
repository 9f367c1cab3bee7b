//! Counters of ASCII control characters, one bin for each character that
//! was met, with a summary for a diagnostic report.

use std::collections::BTreeMap;
use vstd::prelude::*;
use vstd::string::*;
use crate::text::{char_is_control, control_count, is_control, lemma_take_step};

verus! {

broadcast use {vstd::std_specs::btree::group_btree_axioms, vstd::laws_cmp::group_laws_cmp};

/// Number of ASCII codes.
pub const CODES: u8 = 128;

/// What a set of counters holds.
pub struct Counters {
    /// The name of the set.
    pub tag: Seq<char>,
    /// Whether anything was handed to the set for counting.
    pub used: bool,
    /// The count of each control character that was met, by its code.
    pub bins: Map<u8, i32>,
}

/// A control code: 0x00 to 0x1F, or 0x7F.
pub open spec fn is_control_code(code: u8) -> bool {
    code <= 0x1F || code == 0x7F
}

/// Sum of the counts of the codes below `k`.
pub open spec fn sum_below(bins: Map<u8, i32>, k: int) -> int
    decreases k,
{
    if k <= 0 {
        0
    } else {
        sum_below(bins, k - 1) + if bins.contains_key((k - 1) as u8) {
            bins[(k - 1) as u8] as int
        } else {
            0
        }
    }
}

/// Sum of all counts.
pub open spec fn total_of(bins: Map<u8, i32>) -> int {
    sum_below(bins, CODES as int)
}

/// The bins after one more `c`: a control character adds one to its bin,
/// which is made for the first one; any other character changes nothing.
pub open spec fn counted(bins: Map<u8, i32>, c: char) -> Map<u8, i32> {
    if is_control(c) {
        let code = c as u8;
        if bins.contains_key(code) {
            bins.insert(code, (bins[code] + 1) as i32)
        } else {
            bins.insert(code, 1i32)
        }
    } else {
        bins
    }
}

/// The bins after each character of `s`.
pub open spec fn counted_all(bins: Map<u8, i32>, s: Seq<char>) -> Map<u8, i32>
    decreases s.len(),
{
    if s.len() == 0 {
        bins
    } else {
        counted(counted_all(bins, s.drop_last()), s.last())
    }
}

/// The decimal digit or the capital hexadecimal digit for `d`.
pub open spec fn digit_of(d: int) -> char {
    if d < 10 {
        (0x30 + d) as char
    } else {
        (0x37 + d) as char
    }
}

/// `n` in decimal digits.
pub open spec fn decimal(n: nat) -> Seq<char>
    decreases n,
{
    if n < 10 {
        seq![digit_of(n as int)]
    } else {
        decimal(n / 10).push(digit_of((n % 10) as int))
    }
}

/// A bin as it is listed: its code in two capital hexadecimal digits
/// between square brackets, an equals sign and its count.
pub open spec fn entry(code: u8, count: i32) -> Seq<char> {
    seq!['[', digit_of(code as int / 16), digit_of(code as int % 16), ']', '='] + decimal(
        count as nat,
    )
}

/// The bins of the codes below `k` as they are listed, in the order of
/// their codes, with a comma and a space between one and the next.
pub open spec fn entries_below(bins: Map<u8, i32>, k: int) -> Seq<char>
    decreases k,
{
    if k <= 0 {
        Seq::empty()
    } else {
        let front = entries_below(bins, k - 1);
        if bins.contains_key((k - 1) as u8) {
            (if front.len() > 0 {
                front + seq![',', ' ']
            } else {
                front
            }) + entry((k - 1) as u8, bins[(k - 1) as u8])
        } else {
            front
        }
    }
}

/// The summary of a set of counters: its name, a colon, and either the
/// word `Skipped` for a set that was never used, the word `None` for one
/// without a bin, or the list of its bins, the sum of their counts and
/// their number.
pub open spec fn summary(c: Counters) -> Seq<char> {
    c.tag + seq![':', ' '] + if !c.used {
        "Skipped"@
    } else if entries_below(c.bins, CODES as int).len() == 0 {
        "None"@
    } else {
        entries_below(c.bins, CODES as int) + " => "@ + decimal(total_of(c.bins) as nat)
            + " chars, "@ + decimal(c.bins.len()) + " types"@
    }
}

/// The bins are in order: there are bins for control codes only, each
/// holds at least 1, and the sum of all fits the type of a count.
pub open spec fn bins_wf(bins: Map<u8, i32>) -> bool {
    &&& forall|code: u8| #[trigger] bins.contains_key(code) ==> is_control_code(code) && bins[code] >= 1
    &&& total_of(bins) <= i32::MAX
}

/// A sum does not depend on bins at or above its limit.
pub proof fn lemma_sum_below_insert_above(bins: Map<u8, i32>, k: int, code: u8, v: i32)
    requires
        0 <= k <= code,
    ensures
        sum_below(bins.insert(code, v), k) == sum_below(bins, k),
    decreases k,
{
    if k > 0 {
        lemma_sum_below_insert_above(bins, k - 1, code, v);
    }
}

/// A bin that is set to a value changes a sum over it by the difference.
pub proof fn lemma_sum_below_insert(bins: Map<u8, i32>, k: int, code: u8, v: i32)
    requires
        code < k <= 256,
    ensures
        sum_below(bins.insert(code, v), k) == sum_below(bins, k) + v - if bins.contains_key(code) {
            bins[code] as int
        } else {
            0
        },
    decreases k,
{
    if k - 1 == code {
        lemma_sum_below_insert_above(bins, k - 1, code, v);
    } else {
        lemma_sum_below_insert(bins, k - 1, code, v);
    }
}

/// No sum of counts in order is negative, and none is above the total.
pub proof fn lemma_sum_below_bounds(bins: Map<u8, i32>, k: int)
    requires
        forall|code: u8| #[trigger] bins.contains_key(code) ==> bins[code] >= 1,
        0 <= k <= CODES,
    ensures
        0 <= sum_below(bins, k) <= total_of(bins),
        forall|code: u8| code < k && #[trigger] bins.contains_key(code) ==> bins[code] <= sum_below(bins, k),
    decreases CODES - k,
{
    lemma_sum_nonnegative(bins, k);
    if k < CODES {
        lemma_sum_below_bounds(bins, k + 1);
    }
}

/// No sum of counts in order is negative, and none is below one of its
/// counts.
pub proof fn lemma_sum_nonnegative(bins: Map<u8, i32>, k: int)
    requires
        forall|code: u8| #[trigger] bins.contains_key(code) ==> bins[code] >= 1,
        0 <= k <= 256,
    ensures
        0 <= sum_below(bins, k),
        forall|code: u8| code < k && #[trigger] bins.contains_key(code) ==> bins[code] <= sum_below(bins, k),
    decreases k,
{
    if k > 0 {
        lemma_sum_nonnegative(bins, k - 1);
    }
}

/// One more character adds one to the total if it is a control character,
/// and leaves the bins in order as long as the total fits.
pub proof fn lemma_counted(bins: Map<u8, i32>, c: char)
    requires
        bins_wf(bins),
        is_control(c) ==> total_of(bins) < i32::MAX,
    ensures
        bins_wf(counted(bins, c)),
        total_of(counted(bins, c)) == total_of(bins) + if is_control(c) {
            1int
        } else {
            0int
        },
{
    if is_control(c) {
        let code = c as u8;
        lemma_sum_below_bounds(bins, CODES as int);
        if bins.contains_key(code) {
            lemma_sum_below_insert(bins, CODES as int, code, (bins[code] + 1) as i32);
        } else {
            lemma_sum_below_insert(bins, CODES as int, code, 1i32);
        }
    }
}

/// The characters of a text add the number of control characters among
/// them to the total, and leave the bins in order as long as the total
/// fits.
pub proof fn lemma_counted_all(bins: Map<u8, i32>, s: Seq<char>)
    requires
        bins_wf(bins),
        total_of(bins) + control_count(s) <= i32::MAX,
    ensures
        bins_wf(counted_all(bins, s)),
        total_of(counted_all(bins, s)) == total_of(bins) + control_count(s),
    decreases s.len(),
{
    if s.len() > 0 {
        lemma_counted_all(bins, s.drop_last());
        lemma_counted(counted_all(bins, s.drop_last()), s.last());
    }
}

/// A text holds no more control characters than characters, and as many
/// only where it holds nothing else.
pub proof fn lemma_control_count(s: Seq<char>)
    ensures
        control_count(s) <= s.len(),
        control_count(s) == s.len() <==> forall|i: int| 0 <= i < s.len() ==> is_control(s[i]),
    decreases s.len(),
{
    if s.len() > 0 {
        let front = s.drop_last();
        lemma_control_count(front);
        if control_count(s) == s.len() {
            assert forall|i: int| 0 <= i < s.len() implies is_control(s[i]) by {
                if i < front.len() {
                    assert(front[i] == s[i]);
                }
            }
        }
        if forall|i: int| 0 <= i < s.len() ==> is_control(s[i]) {
            assert forall|i: int| 0 <= i < front.len() implies is_control(front[i]) by {
                assert(front[i] == s[i]);
            }
        }
    }
}

/// The total of a set of counters that has scanned one line and nothing
/// else is the number of control characters of the line. It is the length
/// of the line where the line holds control characters only, and less
/// otherwise.
pub proof fn lemma_total_of_line(s: Seq<char>)
    requires
        control_count(s) <= i32::MAX,
    ensures
        total_of(counted_all(Map::empty(), s)) == control_count(s),
        total_of(counted_all(Map::empty(), s)) <= s.len(),
        (forall|i: int| 0 <= i < s.len() ==> is_control(s[i])) ==> total_of(
            counted_all(Map::empty(), s),
        ) == s.len(),
{
    lemma_empty_bins();
    lemma_counted_all(Map::empty(), s);
    lemma_control_count(s);
}

/// Without bins the total is 0.
pub proof fn lemma_empty_bins()
    ensures
        bins_wf(Map::<u8, i32>::empty()),
        total_of(Map::<u8, i32>::empty()) == 0,
{
    lemma_sum_empty(CODES as int);
}

/// Without bins every sum is 0.
proof fn lemma_sum_empty(k: int)
    ensures
        sum_below(Map::<u8, i32>::empty(), k) == 0,
    decreases k,
{
    if k > 0 {
        lemma_sum_empty(k - 1);
    }
}

/// Returns the decimal digit or the capital hexadecimal digit for `d`.
pub fn digit_char(d: u8) -> (r: char)
    requires
        d < 16,
    ensures
        r == digit_of(d as int),
{
    if d < 10 {
        (0x30 + d) as char
    } else {
        (0x37 + d) as char
    }
}

/// Writes `n` in decimal digits at the end of the text.
pub fn push_decimal(result: &mut String, n: u64)
    ensures
        final(result)@ == old(result)@ + decimal(n as nat),
    decreases n,
{
    if n >= 10 {
        push_decimal(result, n / 10);
    }
    let d: u8 = (n % 10) as u8;
    result.push(digit_char(d));
    assert(result@ =~= old(result)@ + decimal(n as nat));
}

/// A name for a set of counters, a mark that the set was used, and a count
/// for each ASCII control character that was met.
#[derive(Debug)]
pub struct ControlCount {
    tag: String,
    used: bool,
    counts: BTreeMap<u8, i32>,
}

impl View for ControlCount {
    type V = Counters;

    closed spec fn view(&self) -> Counters {
        Counters { tag: self.tag@, used: self.used, bins: self.counts@ }
    }
}

impl ControlCount {
    /// The counters are in order.
    pub open spec fn wf(&self) -> bool {
        bins_wf(self@.bins)
    }

    /// Returns a set of counters with the given name, without a bin.
    pub fn new(tag: String) -> (r: ControlCount)
        ensures
            r.wf(),
            r@ == (Counters { tag: tag@, used: false, bins: Map::empty() }),
            total_of(r@.bins) == 0,
    {
        proof {
            lemma_empty_bins();
        }
        ControlCount { tag, used: false, counts: BTreeMap::new() }
    }

    /// Adds one to the count of the character if it is an ASCII control
    /// character, and marks the set as used in any case.
    pub fn up(&mut self, ch: char)
        requires
            old(self).wf(),
            is_control(ch) ==> total_of(old(self)@.bins) < i32::MAX,
        ensures
            final(self).wf(),
            final(self)@ == (Counters {
                used: true,
                bins: counted(old(self)@.bins, ch),
                ..old(self)@
            }),
            total_of(final(self)@.bins) == total_of(old(self)@.bins) + if is_control(ch) {
                1int
            } else {
                0int
            },
    {
        proof {
            lemma_counted(self@.bins, ch);
            lemma_sum_below_bounds(self@.bins, CODES as int);
        }
        if char_is_control(ch) {
            let code: u8 = ch as u8;
            let count: i32 = match self.counts.get(&code) {
                Some(n) => *n,
                None => 0,
            };
            self.counts.insert(code, count + 1);
        }
        self.used = true;
    }

    /// Returns the count of the character, or `None` where it has no bin.
    pub fn get(&self, ch: char) -> (r: Option<i32>)
        ensures
            r == (if ch as u32 <= 0x7F && self@.bins.contains_key(ch as u8) {
                Some(self@.bins[ch as u8])
            } else {
                None
            }),
    {
        if ch as u32 <= 0x7F {
            let code: u8 = ch as u8;
            match self.counts.get(&code) {
                Some(n) => Some(*n),
                None => None,
            }
        } else {
            None
        }
    }

    /// Counts each ASCII control character of the text, and marks the set
    /// as used.
    pub fn scan(&mut self, s: &str)
        requires
            old(self).wf(),
            total_of(old(self)@.bins) + control_count(s@) <= i32::MAX,
        ensures
            final(self).wf(),
            final(self)@ == (Counters {
                used: true,
                bins: counted_all(old(self)@.bins, s@),
                ..old(self)@
            }),
            total_of(final(self)@.bins) == total_of(old(self)@.bins) + control_count(s@),
    {
        for ch in it: s.chars()
            invariant
                it.seq() == s@,
                old(self).wf(),
                total_of(old(self)@.bins) + control_count(s@) <= i32::MAX,
                self.wf(),
                self@.tag == old(self)@.tag,
                self@.bins == counted_all(old(self)@.bins, s@.take(it.index() as int)),
        {
            proof {
                let i = it.index() as int;
                lemma_take_step(s@, i);
                assert(s@ =~= s@.take(i + 1) + s@.skip(i + 1));
                crate::text::lemma_control_count_concat(s@.take(i + 1), s@.skip(i + 1));
                lemma_counted_all(old(self)@.bins, s@.take(i));
            }
            self.up(ch);
        }
        self.used = true;
        proof {
            assert(s@.take(s@.len() as int) =~= s@);
            lemma_counted_all(old(self)@.bins, s@);
        }
    }

    /// Whether the counters can take the control characters of the text
    /// without a count going over what its type holds: `scan` is to be
    /// called only where this holds.
    pub fn has_room(&self, s: &str) -> (r: bool)
        requires
            self.wf(),
        ensures
            r == (total_of(self@.bins) + control_count(s@) <= i32::MAX),
    {
        let total = self.total();
        proof {
            lemma_sum_below_bounds(self@.bins, CODES as int);
        }
        let mut room: i32 = i32::MAX - total;
        for ch in it: s.chars()
            invariant
                it.seq() == s@,
                0 <= total == total_of(self@.bins),
                room >= 0 ==> room == i32::MAX - total - control_count(s@.take(it.index() as int)),
                room < 0 ==> room == -1 && total + control_count(s@.take(it.index() as int))
                    > i32::MAX,
        {
            proof {
                lemma_take_step(s@, it.index() as int);
            }
            if char_is_control(ch) && room >= 0 {
                room = room - 1;
            }
        }
        assert(s@.take(s@.len() as int) =~= s@);
        room >= 0
    }

    /// Returns the number of bins.
    pub fn bins(&self) -> (r: usize)
        ensures
            r == self@.bins.len(),
    {
        self.counts.len()
    }

    /// Returns the sum of all counts.
    pub fn total(&self) -> (r: i32)
        requires
            self.wf(),
        ensures
            r == total_of(self@.bins),
    {
        let mut sum: i32 = 0;
        let mut code: u8 = 0;
        while code < CODES
            invariant
                self.wf(),
                0 <= code <= CODES,
                sum == sum_below(self@.bins, code as int),
            decreases CODES - code,
        {
            proof {
                lemma_sum_below_bounds(self@.bins, code + 1);
            }
            match self.counts.get(&code) {
                Some(n) => {
                    sum = sum + *n;
                },
                None => {},
            }
            code += 1;
        }
        sum
    }

    /// Returns the summary of the set for a diagnostic report: its name,
    /// and either `Skipped`, `None`, or each bin as its code in hexadecimal
    /// and its count, followed by the sum of the counts and the number of
    /// bins.
    pub fn to_string(&self) -> (r: String)
        requires
            self.wf(),
        ensures
            r@ == summary(self@),
    {
        proof {
            reveal_strlit(": ");
            reveal_strlit("Skipped");
            reveal_strlit("None");
            reveal_strlit(" => ");
            reveal_strlit(" chars, ");
            reveal_strlit(" types");
        }
        let mut result = self.tag.clone();
        result.append(": ");
        assert(result@ =~= self@.tag + seq![':', ' ']);
        if !self.used {
            result.append("Skipped");
            return result;
        }
        let mut list = String::new();
        let mut previous = false;
        let mut code: u8 = 0;
        while code < CODES
            invariant
                self.wf(),
                0 <= code <= CODES,
                list@ == entries_below(self@.bins, code as int),
                previous == (list@.len() > 0),
            decreases CODES - code,
        {
            match self.counts.get(&code) {
                Some(n) => {
                    let ghost front = list@;
                    if previous {
                        list.append(", ");
                        proof {
                            reveal_strlit(", ");
                        }
                        assert(list@ =~= front + seq![',', ' ']);
                    }
                    let ghost sep = list@;
                    list.push('[');
                    list.push(digit_char(code / 16));
                    list.push(digit_char(code % 16));
                    list.push(']');
                    list.push('=');
                    push_decimal(&mut list, *n as u64);
                    assert(list@ =~= sep + entry(code, *n));
                    previous = true;
                },
                None => {},
            }
            code += 1;
        }
        if previous {
            let total = self.total();
            let bins = self.bins();
            proof {
                lemma_sum_below_bounds(self@.bins, CODES as int);
            }
            result.append(list.as_str());
            result.append(" => ");
            push_decimal(&mut result, total as u64);
            result.append(" chars, ");
            push_decimal(&mut result, bins as u64);
            result.append(" types");
            assert(result@ =~= summary(self@));
        } else {
            result.append("None");
        }
        result
    }
}

} // verus!
