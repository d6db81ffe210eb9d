//! Looking at the dates of a payload before it is read.
//!
//! The reader of property lists turns each date to UTC and counts it from
//! the Unix epoch. It cannot hold a date that leaves the year 9999 on the
//! way to UTC, and on some clocks it cannot hold a date before the epoch.
//! A payload with such a date is not read at all. What is looked at is the
//! text behind every tag that may open a date; where the text cannot be
//! made out (a reference or a comment stands in the way), the date counts
//! as one that cannot be held.

use vstd::prelude::*;

verus! {

/// The first year all of whose dates lie after the epoch.
pub const FIRST_SAFE_YEAR: u32 = 1971;

/// The last year none of whose dates leaves the year 9999.
pub const LAST_SAFE_YEAR: u32 = 9998;

/// Seconds in a day.
pub const DAY: i64 = 86_400;

/// `byte` is an ASCII digit.
pub open spec fn is_digit(byte: u8) -> bool {
    0x30 <= byte <= 0x39
}

/// `byte` is a blank, a tab, a line feed or a carriage return.
pub open spec fn is_space(byte: u8) -> bool {
    byte == 0x20 || byte == 0x09 || byte == 0x0a || byte == 0x0d
}

/// `byte` ends the name of a tag that has a content: white space or `>`.
pub open spec fn ends_name(byte: u8) -> bool {
    is_space(byte) || byte == 0x3e
}

/// The index of the first `byte` in `xml` at or behind `from`; the length
/// of `xml` where there is none.
pub open spec fn find_byte(xml: Seq<u8>, from: int, byte: u8) -> int
    decreases xml.len() - from,
{
    if from < 0 || from >= xml.len() {
        xml.len() as int
    } else if xml[from] == byte {
        from
    } else {
        find_byte(xml, from + 1, byte)
    }
}

/// The index of the `>` that ends a tag, read from `xml[from]` on while the
/// quote `quote` is open (0 where none is): the first `>` outside of single
/// and double quotes. The length of `xml` where the tag does not end.
pub open spec fn tag_close(xml: Seq<u8>, from: int, quote: u8) -> int
    decreases xml.len() - from,
{
    if from < 0 || from >= xml.len() {
        xml.len() as int
    } else if quote == 0 {
        if xml[from] == 0x3e {
            from
        } else if xml[from] == 0x22 || xml[from] == 0x27 {
            tag_close(xml, from + 1, xml[from])
        } else {
            tag_close(xml, from + 1, 0)
        }
    } else if xml[from] == quote {
        tag_close(xml, from + 1, 0)
    } else {
        tag_close(xml, from + 1, quote)
    }
}

/// The bytes `date` stand at `xml[at]` and the name ends behind them.
pub open spec fn names_date(xml: Seq<u8>, at: int) -> bool {
    &&& 1 <= at
    &&& at + 4 < xml.len()
    &&& xml[at] == 0x64 && xml[at + 1] == 0x61 && xml[at + 2] == 0x74 && xml[at + 3] == 0x65
    &&& ends_name(xml[at + 4])
}

/// The number that the two digits from `xml[at]` on write.
pub open spec fn two_at(xml: Seq<u8>, at: int) -> int {
    (xml[at] - 0x30) * 10 + (xml[at + 1] - 0x30)
}

/// The number that the four digits from `xml[at]` on write.
pub open spec fn year_at(xml: Seq<u8>, at: int) -> int {
    two_at(xml, at) * 100 + two_at(xml, at + 2)
}

/// Two digits stand at `xml[at]`.
pub open spec fn two_digits(xml: Seq<u8>, at: int) -> bool {
    is_digit(xml[at]) && is_digit(xml[at + 1])
}

/// The text from `xml[s]` on opens with a year in four digits that is not
/// from [`FIRST_SAFE_YEAR`] to [`LAST_SAFE_YEAR`].
pub open spec fn year_may_harm(xml: Seq<u8>, s: int) -> bool {
    &&& two_digits(xml, s) && two_digits(xml, s + 2)
    &&& !(FIRST_SAFE_YEAR <= year_at(xml, s) <= LAST_SAFE_YEAR)
}

/// The nineteen bytes from `xml[s]` on are laid out as a date and a time:
/// `YYYY-MM-DD`, any one byte, `hh:mm:ss`.
pub open spec fn has_layout(xml: Seq<u8>, s: int) -> bool {
    &&& two_digits(xml, s) && two_digits(xml, s + 2)
    &&& xml[s + 4] == 0x2d
    &&& two_digits(xml, s + 5)
    &&& xml[s + 7] == 0x2d
    &&& two_digits(xml, s + 8)
    &&& two_digits(xml, s + 11)
    &&& xml[s + 13] == 0x3a
    &&& two_digits(xml, s + 14)
    &&& xml[s + 16] == 0x3a
    &&& two_digits(xml, s + 17)
}

/// The index behind the digits that stand from `xml[from]` on, before `e`.
pub open spec fn skip_digits(xml: Seq<u8>, from: int, e: int) -> int
    decreases e - from,
{
    if 0 <= from < e && from < xml.len() && is_digit(xml[from]) {
        skip_digits(xml, from + 1, e)
    } else {
        from
    }
}

/// The index at which the offset of the date in `xml[s..e]` stands: behind
/// the seconds and the fraction of a second, where there is one. `None`
/// where a `.` is followed by no digit.
pub open spec fn offset_start(xml: Seq<u8>, s: int, e: int) -> Option<int> {
    let f = s + 19;
    if xml[f] != 0x2e {
        Some(f)
    } else if f + 1 < e && is_digit(xml[f + 1]) {
        Some(skip_digits(xml, f + 1, e))
    } else {
        None
    }
}

/// The offset from UTC that `xml[q..e]` writes, in seconds east: `Z` or
/// `z`, or a sign with hours and minutes. `None` where it writes none.
pub open spec fn offset_at(xml: Seq<u8>, q: int, e: int) -> Option<int> {
    if q + 1 == e && (xml[q] == 0x5a || xml[q] == 0x7a) {
        Some(0)
    } else if q + 6 == e && (xml[q] == 0x2b || xml[q] == 0x2d) && two_digits(xml, q + 1) && xml[q
        + 3] == 0x3a && two_digits(xml, q + 4) {
        let east = two_at(xml, q + 1) * 3600 + two_at(xml, q + 4) * 60;
        if xml[q] == 0x2b {
            Some(east)
        } else {
            Some(-east)
        }
    } else {
        None
    }
}

/// The second of the day that the time at `xml[s + 11]` writes; a leap
/// second counts as the second before it.
pub open spec fn second_of_day(xml: Seq<u8>, s: int) -> int {
    let second = two_at(xml, s + 17);
    two_at(xml, s + 11) * 3600 + two_at(xml, s + 14) * 60 + if second > 59 {
        59
    } else {
        second
    }
}

/// A date of year `year`, month `month` and day `day`, at the second
/// `second` of the day as counted in UTC, lies before the epoch or behind
/// the year 9999. `second` may lie in the day before or the day after.
pub open spec fn instant_harms(year: int, month: int, day: int, second: int) -> bool {
    if year >= 9999 {
        month >= 12 && day >= 31 && second >= DAY
    } else if year >= FIRST_SAFE_YEAR {
        false
    } else if year == 1970 {
        month <= 1 && day <= 1 && second < 0
    } else if year == 1969 {
        !(month >= 12 && day >= 31 && second >= DAY)
    } else {
        true
    }
}

/// The text `xml[s..e]` may be a date that cannot be held: it is laid out
/// as a date with an offset, and counted in UTC it lies before the epoch or
/// behind the year 9999.
pub open spec fn date_harms(xml: Seq<u8>, s: int, e: int) -> bool {
    if e - s < 20 || !has_layout(xml, s) {
        false
    } else {
        match offset_start(xml, s, e) {
            Some(q) => match offset_at(xml, q, e) {
                Some(east) => instant_harms(
                    year_at(xml, s),
                    two_at(xml, s + 5),
                    two_at(xml, s + 8),
                    second_of_day(xml, s) - east,
                ),
                None => false,
            },
            None => false,
        }
    }
}

/// The content of the element whose tag ends before `xml[s]` may be a date
/// that cannot be held.
///
/// Four plain bytes that are no such year settle that it is none. A
/// reference in the content, or a comment and the like inside it, hides the
/// text; then it counts as one. Otherwise the content is the text up to
/// the closing tag; behind an opening tag there is no date at all.
pub open spec fn content_harms(xml: Seq<u8>, s: int) -> bool {
    let e = find_byte(xml, s, 0x3c);
    let a = find_byte(xml, s, 0x26);
    let plain = if a < e {
        a
    } else {
        e
    };
    if plain - s >= 4 && !year_may_harm(xml, s) {
        false
    } else if a < e {
        true
    } else if e + 1 >= xml.len() {
        false
    } else if xml[e + 1] == 0x2f {
        date_harms(xml, s, e)
    } else {
        xml[e + 1] == 0x21 || xml[e + 1] == 0x3f
    }
}

/// The tag that opens with the `<` at `xml[open]` and has the name `date`
/// at `xml[at]` opens a date that may not be held.
///
/// A closing tag, a comment and the like open no date; neither does a tag
/// that has ended before the name, one that never ends, or one that ends
/// with `/`.
pub open spec fn tag_harms(xml: Seq<u8>, open: int, at: int) -> bool {
    let close = tag_close(xml, open + 1, 0);
    &&& xml[open + 1] != 0x2f && xml[open + 1] != 0x21 && xml[open + 1] != 0x3f
    &&& at + 4 <= close < xml.len()
    &&& xml[close - 1] != 0x2f
    &&& content_harms(xml, close + 1)
}

/// One of the tags that may open between `xml[from]` and a name behind a
/// prefix, at `xml[at]`, opens a date that may not be held. A tag may open
/// at every `<` before the `:` of the prefix, back to the nearest white
/// space or `:`, neither of which a prefix holds.
pub open spec fn prefix_harms(xml: Seq<u8>, from: int, at: int) -> bool
    decreases from + 1,
{
    if from < 0 || from >= xml.len() || is_space(xml[from]) || xml[from] == 0x3a {
        false
    } else {
        (xml[from] == 0x3c && tag_harms(xml, from, at)) || prefix_harms(xml, from - 1, at)
    }
}

/// A tag named `date` at `xml[at]` opens a date that may not be held. The
/// name stands right behind the `<` of the tag, or behind a prefix and its
/// `:`.
pub open spec fn opens_harmful_date(xml: Seq<u8>, at: int) -> bool {
    names_date(xml, at) && if xml[at - 1] == 0x3c {
        tag_harms(xml, at - 1, at)
    } else if xml[at - 1] == 0x3a {
        prefix_harms(xml, at - 2, at)
    } else {
        false
    }
}

/// Every date of `xml` can be held: no tag of `xml` opens a date that, counted
/// in UTC, may lie before the Unix epoch or behind the year 9999.
pub open spec fn has_readable_dates(xml: Seq<u8>) -> bool {
    forall|at: int| !opens_harmful_date(xml, at)
}

/// Whether `byte` is an ASCII digit.
fn digit(byte: u8) -> (is: bool)
    ensures
        is == is_digit(byte),
{
    0x30 <= byte && byte <= 0x39
}

/// Whether two digits stand at `xml[at]`.
fn digits(xml: &[u8], at: usize) -> (are: bool)
    requires
        at + 1 < xml@.len(),
    ensures
        are == two_digits(xml@, at as int),
{
    digit(xml[at]) && digit(xml[at + 1])
}

/// The number that the two digits at `xml[at]` write.
fn number(xml: &[u8], at: usize) -> (value: i64)
    requires
        at + 1 < xml@.len(),
        two_digits(xml@, at as int),
    ensures
        value == two_at(xml@, at as int),
        0 <= value <= 99,
{
    ((xml[at] - 0x30) as i64) * 10 + ((xml[at + 1] - 0x30) as i64)
}

/// The index of the first `byte` in `xml` at or behind `from`.
pub fn index_of_byte(xml: &[u8], from: usize, byte: u8) -> (at: usize)
    ensures
        at == find_byte(xml@, from as int, byte),
        at <= xml@.len(),
        from <= xml@.len() ==> from <= at,
        at < xml@.len() ==> xml@[at as int] == byte,
{
    let len = xml.len();
    if from >= len {
        return len;
    }
    let mut at: usize = from;
    while at < len
        invariant
            from <= at <= len,
            len == xml@.len(),
            find_byte(xml@, from as int, byte) == find_byte(xml@, at as int, byte),
        decreases len - at,
    {
        if xml[at] == byte {
            return at;
        }
        at = at + 1;
    }
    len
}

/// The index of the `>` that ends the tag read from `xml[from]` on.
fn end_of_tag(xml: &[u8], from: usize) -> (close: usize)
    ensures
        close == tag_close(xml@, from as int, 0),
        close <= xml@.len(),
        from <= xml@.len() ==> from <= close,
{
    let len = xml.len();
    if from >= len {
        return len;
    }
    let mut quote: u8 = 0;
    let mut at: usize = from;
    while at < len
        invariant
            from <= at <= len,
            len == xml@.len(),
            tag_close(xml@, from as int, 0) == tag_close(xml@, at as int, quote),
        decreases len - at,
    {
        let byte = xml[at];
        if quote == 0 {
            if byte == 0x3e {
                return at;
            }
            if byte == 0x22 || byte == 0x27 {
                quote = byte;
            }
        } else if byte == quote {
            quote = 0;
        }
        at = at + 1;
    }
    len
}

/// Whether the tag that opens at `xml[open]` and is named at `xml[at]`
/// opens a date that may not be held.
fn tag_may_harm(xml: &[u8], open: usize, at: usize) -> (harm: bool)
    requires
        open < at,
        at + 4 < xml@.len(),
    ensures
        harm == tag_harms(xml@, open as int, at as int),
{
    let len = xml.len();
    let first = xml[open + 1];
    if first == 0x2f || first == 0x21 || first == 0x3f {
        return false;
    }
    let close = end_of_tag(xml, open + 1);
    if close >= len || close < at + 4 {
        return false;
    }
    if xml[close - 1] == 0x2f {
        return false;
    }
    content_may_harm(xml, close + 1)
}

/// Whether one of the tags that may open between `xml[from]` and the name
/// at `xml[at]` opens a date that may not be held.
fn prefix_may_harm(xml: &[u8], from: usize, at: usize) -> (harm: bool)
    requires
        from < at,
        at + 4 < xml@.len(),
    ensures
        harm == prefix_harms(xml@, from as int, at as int),
{
    let mut cur: usize = from;
    loop
        invariant
            cur <= from < at,
            at + 4 < xml@.len(),
            prefix_harms(xml@, from as int, at as int) == prefix_harms(
                xml@,
                cur as int,
                at as int,
            ),
        decreases cur,
    {
        let byte = xml[cur];
        if byte == 0x20 || byte == 0x09 || byte == 0x0a || byte == 0x0d || byte == 0x3a {
            return false;
        }
        if byte == 0x3c && tag_may_harm(xml, cur, at) {
            return true;
        }
        if cur == 0 {
            assert(!prefix_harms(xml@, -1, at as int));
            return false;
        }
        cur = cur - 1;
    }
}

/// Whether the text `xml[s..e]` may be a date that cannot be held.
fn harms(xml: &[u8], s: usize, e: usize) -> (harm: bool)
    requires
        s <= e <= xml@.len(),
    ensures
        harm == date_harms(xml@, s as int, e as int),
{
    if e - s < 20 {
        return false;
    }
    let laid_out = digits(xml, s) && digits(xml, s + 2) && xml[s + 4] == 0x2d && digits(xml, s + 5)
        && xml[s + 7] == 0x2d && digits(xml, s + 8) && digits(xml, s + 11) && xml[s + 13] == 0x3a
        && digits(xml, s + 14) && xml[s + 16] == 0x3a && digits(xml, s + 17);
    if !laid_out {
        return false;
    }
    let f = s + 19;
    let mut q: usize = f;
    if xml[f] == 0x2e {
        if !(f + 1 < e && digit(xml[f + 1])) {
            return false;
        }
        q = f + 1;
        while q < e && digit(xml[q])
            invariant
                f < q <= e <= xml@.len(),
                skip_digits(xml@, f + 1, e as int) == skip_digits(xml@, q as int, e as int),
            decreases e - q,
        {
            q = q + 1;
        }
    }
    assert(offset_start(xml@, s as int, e as int) == Some(q as int));
    let east: i64 = if e - q == 1 && (xml[q] == 0x5a || xml[q] == 0x7a) {
        0
    } else if e - q == 6 && (xml[q] == 0x2b || xml[q] == 0x2d) && digits(xml, q + 1) && xml[q + 3]
        == 0x3a && digits(xml, q + 4) {
        let size = number(xml, q + 1) * 3600 + number(xml, q + 4) * 60;
        if xml[q] == 0x2b {
            size
        } else {
            -size
        }
    } else {
        return false;
    };
    let year = number(xml, s) * 100 + number(xml, s + 2);
    let month = number(xml, s + 5);
    let day = number(xml, s + 8);
    let written = number(xml, s + 17);
    let second = number(xml, s + 11) * 3600 + number(xml, s + 14) * 60 + if written > 59 {
        59
    } else {
        written
    } - east;
    if year >= 9999 {
        month >= 12 && day >= 31 && second >= DAY
    } else if year >= 1971 {
        false
    } else if year == 1970 {
        month <= 1 && day <= 1 && second < 0
    } else if year == 1969 {
        !(month >= 12 && day >= 31 && second >= DAY)
    } else {
        true
    }
}

/// Whether the content of the element whose tag ends before `xml[s]` may
/// be a date that cannot be held.
fn content_may_harm(xml: &[u8], s: usize) -> (harm: bool)
    requires
        s <= xml@.len(),
    ensures
        harm == content_harms(xml@, s as int),
{
    let len = xml.len();
    let e = index_of_byte(xml, s, 0x3c);
    let a = index_of_byte(xml, s, 0x26);
    let plain = if a < e {
        a
    } else {
        e
    };
    if plain - s >= 4 {
        let year_harms = digits(xml, s) && digits(xml, s + 2) && {
            let year = number(xml, s) * 100 + number(xml, s + 2);
            !(1971 <= year && year <= 9998)
        };
        if !year_harms {
            return false;
        }
    }
    if a < e {
        true
    } else if len - e <= 1 {
        false
    } else if xml[e + 1] == 0x2f {
        harms(xml, s, e)
    } else {
        xml[e + 1] == 0x21 || xml[e + 1] == 0x3f
    }
}

/// Whether a tag named `date` at `xml[at]` opens a date that may not be
/// held.
fn opens_harm(xml: &[u8], at: usize) -> (harm: bool)
    ensures
        harm == opens_harmful_date(xml@, at as int),
{
    let len = xml.len();
    if at < 1 || at >= len || len - at <= 4 {
        return false;
    }
    let end = xml[at + 4];
    let named = xml[at] == 0x64 && xml[at + 1] == 0x61 && xml[at + 2] == 0x74 && xml[at + 3]
        == 0x65 && (end == 0x20 || end == 0x09 || end == 0x0a || end == 0x0d || end == 0x3e);
    if !named {
        return false;
    }
    assert(names_date(xml@, at as int));
    if xml[at - 1] == 0x3c {
        tag_may_harm(xml, at - 1, at)
    } else if xml[at - 1] == 0x3a {
        if at < 2 {
            assert(!prefix_harms(xml@, at - 2, at as int));
            return false;
        }
        prefix_may_harm(xml, at - 2, at)
    } else {
        false
    }
}

/// Whether every date of `xml` can be held.
pub fn dates_are_readable(xml: &[u8]) -> (readable: bool)
    ensures
        readable == has_readable_dates(xml@),
{
    let len = xml.len();
    let mut at: usize = 0;
    while at < len
        invariant
            len == xml@.len(),
            forall|before: int| before < at ==> !opens_harmful_date(xml@, before),
        decreases len - at,
    {
        if opens_harm(xml, at) {
            return false;
        }
        at = at + 1;
    }
    true
}

} // verus!
