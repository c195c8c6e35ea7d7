use vstd::prelude::*;
use crate::vif_detect::{all_digits, decimal_value, is_digit, lemma_decimal_value_prefix_le};

verus! {

/// Why a counter could not be read from the memory report.
#[derive(Clone, Copy, Debug, PartialEq, Eq, Structural)]
pub enum MeminfoError {
    /// The report has no such tag.
    TagNotFound,
    /// No digit follows the tag.
    NoNumber,
    /// The number does not fit in a `usize`.
    Overflow,
}

/// First position at or after `i` where `needle` occurs in `hay`.
pub open spec fn find_from(hay: Seq<char>, needle: Seq<char>, i: int) -> Option<int>
    decreases hay.len() + 1 - i,
{
    if i < 0 || i + needle.len() > hay.len() {
        None
    } else if hay.subrange(i, i + needle.len()) == needle {
        Some(i)
    } else {
        find_from(hay, needle, i + 1)
    }
}

/// First position at or after `i` that holds a digit.
pub open spec fn digit_from(s: Seq<char>, i: int) -> Option<int>
    decreases s.len() - i,
{
    if i < 0 || i >= s.len() {
        None
    } else if is_digit(s[i]) {
        Some(i)
    } else {
        digit_from(s, i + 1)
    }
}

/// End of the run of digits that starts at `i`.
pub open spec fn digits_end(s: Seq<char>, i: int) -> int
    decreases s.len() - i,
{
    if i < 0 || i >= s.len() || !is_digit(s[i]) {
        i
    } else {
        digits_end(s, i + 1)
    }
}

/// The counter of a memory report that follows `tag`: the first run of
/// digits after the tag's first occurrence, in kilobytes.
pub open spec fn meminfo_value(raw: Seq<char>, tag: Seq<char>) -> Result<usize, MeminfoError> {
    match find_from(raw, tag, 0) {
        None => Err(MeminfoError::TagNotFound),
        Some(t) => match digit_from(raw, t + tag.len()) {
            None => Err(MeminfoError::NoNumber),
            Some(d) => {
                let v = decimal_value(raw.subrange(d, digits_end(raw, d)));
                if v <= usize::MAX {
                    Ok(v as usize)
                } else {
                    Err(MeminfoError::Overflow)
                }
            },
        },
    }
}

fn chars_of(s: &str) -> (r: Vec<char>)
    ensures
        r@ == s@,
{
    let n = s.unicode_len();
    let mut r: Vec<char> = Vec::new();
    let mut i: usize = 0;
    while i < n
        invariant
            n == s@.len(),
            i <= n,
            r@ == s@.subrange(0, i as int),
        decreases n - i,
    {
        r.push(s.get_char(i));
        i = i + 1;
        assert(r@ =~= s@.subrange(0, i as int));
    }
    assert(s@.subrange(0, n as int) =~= s@);
    r
}

fn occurs_at(hay: &Vec<char>, needle: &Vec<char>, i: usize) -> (r: bool)
    requires
        i + needle@.len() <= hay@.len(),
    ensures
        r == (hay@.subrange(i as int, i + needle@.len()) == needle@),
{
    let hn = hay.len();
    let mut k: usize = 0;
    while k < needle.len()
        invariant
            hn == hay@.len(),
            i + needle@.len() <= hay@.len(),
            k <= needle@.len(),
            forall|j: int| 0 <= j < k ==> hay@[i + j] == needle@[j],
        decreases needle@.len() - k,
    {
        assert(i + k < hay@.len());
        if hay[i + k] != needle[k] {
            assert(hay@.subrange(i as int, i + needle@.len())[k as int] != needle@[k as int]);
            return false;
        }
        k = k + 1;
    }
    assert(hay@.subrange(i as int, i + needle@.len()) =~= needle@);
    true
}

proof fn lemma_digits_end(s: Seq<char>, i: int)
    requires
        0 <= i <= s.len(),
    ensures
        i <= digits_end(s, i) <= s.len(),
        all_digits(s.subrange(i, digits_end(s, i))),
    decreases s.len() - i,
{
    if i < s.len() && is_digit(s[i]) {
        lemma_digits_end(s, i + 1);
        let e = digits_end(s, i);
        let sub = s.subrange(i, e);
        assert forall|j: int| 0 <= j < sub.len() implies is_digit(#[trigger] sub[j]) by {
            if j > 0 {
                assert(sub[j] == s.subrange(i + 1, e)[j - 1]);
            }
        }
    }
}

fn find_tag(hay: &Vec<char>, needle: &Vec<char>) -> (r: Option<usize>)
    ensures
        match r {
            Some(t) => find_from(hay@, needle@, 0) == Some(t as int) && t + needle@.len() <= hay@.len(),
            None => find_from(hay@, needle@, 0) is None,
        },
{
    let n = hay.len();
    let k = needle.len();
    if k > n {
        return None;
    }
    let mut t: usize = 0;
    loop
        invariant
            n == hay@.len(),
            k == needle@.len(),
            k <= n,
            t <= n - k,
            find_from(hay@, needle@, 0) == find_from(hay@, needle@, t as int),
        decreases n - k - t,
    {
        if occurs_at(hay, needle, t) {
            return Some(t);
        }
        if t == n - k {
            assert(find_from(hay@, needle@, t + 1) is None);
            return None;
        }
        t = t + 1;
    }
}

/// Reads the counter that follows `tag` in the text of a memory report.
pub fn meminfo_field(rawdata: &str, tag: &str) -> (r: Result<usize, MeminfoError>)
    ensures
        r == meminfo_value(rawdata@, tag@),
{
    let raw = chars_of(rawdata);
    let needle = chars_of(tag);
    let n = raw.len();
    // where the tag first occurs
    let t = match find_tag(&raw, &needle) {
        Some(t) => t,
        None => {
            return Err(MeminfoError::TagNotFound);
        },
    };
    let k = needle.len();
    // the first digit after it
    let mut d: usize = t + k;
    while d < n && !(raw[d] >= '0' && raw[d] <= '9')
        invariant
            raw@ == rawdata@,
            n == raw@.len(),
            t + k <= d <= n,
            digit_from(raw@, (t + k) as int) == digit_from(raw@, d as int),
        decreases n - d,
    {
        d = d + 1;
    }
    if d >= n {
        return Err(MeminfoError::NoNumber);
    }
    // the run of digits, and its value
    let ghost e = digits_end(raw@, d as int);
    proof {
        lemma_digits_end(raw@, d as int);
    }
    let ghost expected = meminfo_value(rawdata@, tag@);
    assert(digit_from(raw@, d as int) == Some(d as int));
    assert(expected == if decimal_value(raw@.subrange(d as int, e)) <= usize::MAX {
        Ok::<usize, MeminfoError>(decimal_value(raw@.subrange(d as int, e)) as usize)
    } else {
        Err(MeminfoError::Overflow)
    });
    let mut i: usize = d;
    let mut acc: usize = 0;
    while i < n && raw[i] >= '0' && raw[i] <= '9'
        invariant
            raw@ == rawdata@,
            n == raw@.len(),
            d <= i <= e,
            e == digits_end(raw@, d as int),
            e <= n,
            digits_end(raw@, d as int) == digits_end(raw@, i as int),
            all_digits(raw@.subrange(d as int, e)),
            acc as nat == decimal_value(raw@.subrange(d as int, i as int)),
            expected == meminfo_value(rawdata@, tag@),
            expected == if decimal_value(raw@.subrange(d as int, e)) <= usize::MAX {
                Ok::<usize, MeminfoError>(decimal_value(raw@.subrange(d as int, e)) as usize)
            } else {
                Err(MeminfoError::Overflow)
            },
        decreases n - i,
    {
        proof {
            lemma_digits_end(raw@, i as int + 1);
        }
        let v = (raw[i] as u32 - '0' as u32) as usize;
        let ghost prefix = raw@.subrange(d as int, i as int);
        let ghost next = raw@.subrange(d as int, i as int + 1);
        assert(next.drop_last() =~= prefix);
        assert(decimal_value(next) == acc * 10 + v);
        if acc > (usize::MAX - v) / 10 {
            proof {
                assert(acc * 10 + v > usize::MAX) by (nonlinear_arith)
                    requires
                        acc > (usize::MAX - v) / 10,
                        v <= 9,
                ;
                let run = raw@.subrange(d as int, e);
                assert(next =~= run.subrange(0, i - d + 1));
                lemma_decimal_value_prefix_le(run, i - d + 1);
            }
            return Err(MeminfoError::Overflow);
        }
        acc = acc * 10 + v;
        i = i + 1;
    }
    assert(i == e);
    Ok(acc)
}

/// Kilobytes available, from the page counts that BSD systems report: the
/// inactive, cached and free pages of `pagesize` bytes each. `None` when the
/// byte count does not fit in a `usize`.
pub fn available_kb_from_pages(inactive: u32, cache: u32, free: u32, pagesize: usize) -> (r: Option<usize>)
    ensures
        r == (if (inactive + cache + free) * pagesize <= usize::MAX {
            Some((((inactive + cache + free) * pagesize) / 1024) as usize)
        } else {
            None::<usize>
        }),
{
    let pages: u64 = inactive as u64 + cache as u64 + free as u64;
    if pagesize == 0 {
        return Some(0);
    }
    if pages > usize::MAX as u64 {
        proof {
            assert(pages * pagesize > usize::MAX) by (nonlinear_arith)
                requires
                    pages > usize::MAX,
                    pagesize >= 1,
            ;
        }
        return None;
    }
    let pages = pages as usize;
    match pages.checked_mul(pagesize) {
        Some(bytes) => Some(bytes / 1024),
        None => None,
    }
}

} // verus!
