//! WAL segment files.
//!
//! A segment is a file of fixed size that holds a contiguous range of the WAL
//! byte stream:
//!
//! ```text
//! segment_id  = lsn / segment_size
//! file_offset = lsn % segment_size
//! file_name   = wal-{segment_id + 1:08}.log
//! ```

use vstd::prelude::*;
use vstd::string::*;

use crate::error::{Result, StorageError};
use crate::text::{
    all_digits, decimal, digit_char, digits_value, is_digit, parse_unsigned, parsed_unsigned,
    push_decimal, push_zero_padded, unsigned_digits, zero_padded,
};
use crate::types::{Lsn, LSN_ALIGNMENT};

verus! {

/// The file name of a segment.
pub open spec fn filename_of(segment_id: nat) -> Seq<char> {
    "wal-"@ + zero_padded(segment_id + 1, 8) + ".log"@
}

/// The segment that a file name denotes; `None` for other files.
pub open spec fn segment_of(name: Seq<char>) -> Option<u64> {
    if name.len() >= 8 && name.take(4) == "wal-"@ && name.skip(name.len() - 4) == ".log"@ {
        match parsed_unsigned(name.subrange(4, name.len() - 4), u64::MAX as nat) {
            Some(n) => if n > 0 {
                Some((n - 1) as u64)
            } else {
                None
            },
            None => None,
        }
    } else {
        None
    }
}

proof fn decimal_denotes(n: nat)
    ensures
        all_digits(decimal(n)),
        digits_value(decimal(n)) == n,
        decimal(n).len() > 0,
    decreases n,
{
    if n >= 10 {
        decimal_denotes(n / 10);
        let d = decimal(n);
        assert(d.drop_last() =~= decimal(n / 10));
        assert(d.last() == digit_char(n % 10));
    } else {
        let d = decimal(n);
        assert(d.drop_last() =~= Seq::<char>::empty());
        assert(digits_value(Seq::<char>::empty()) == 0);
        assert(d.last() == digit_char(n));
    }
}

proof fn padding_keeps_value(k: nat, digits: Seq<char>)
    ensures
        digits_value(Seq::new(k, |i: int| '0') + digits) == digits_value(digits),
    decreases digits.len(), k,
{
    let pad = Seq::new(k, |i: int| '0');
    let s = pad + digits;
    if digits.len() > 0 {
        padding_keeps_value(k, digits.drop_last());
        assert(s.drop_last() =~= pad + digits.drop_last());
        assert(s.last() == digits.last());
    } else if k > 0 {
        padding_keeps_value((k - 1) as nat, digits);
        assert(s.drop_last() =~= Seq::new((k - 1) as nat, |i: int| '0') + digits);
        assert(s.last() == '0');
    } else {
        assert(s =~= digits);
    }
}

/// Every segment is found again under its own file name.
pub proof fn filename_denotes_segment(segment_id: u64)
    requires
        segment_id < u64::MAX,
    ensures
        segment_of(filename_of(segment_id as nat)) == Some(segment_id),
{
    reveal_strlit("wal-");
    reveal_strlit(".log");
    let n = (segment_id + 1) as nat;
    let digits = zero_padded(n, 8);
    decimal_denotes(n);
    assert(all_digits(digits) && digits_value(digits) == n && digits.len() > 0 && unsigned_digits(
        digits,
    ) == digits) by {
        if decimal(n).len() < 8 {
            padding_keeps_value((8 - decimal(n).len()) as nat, decimal(n));
        }
        assert(is_digit(digits[0]));
    }
    let name = filename_of(segment_id as nat);
    assert(name.take(4) =~= "wal-"@);
    assert(name.skip(name.len() - 4) =~= ".log"@);
    assert(name.subrange(4, name.len() - 4) =~= digits);
}

/// The file name of a segment. File names count from one, segments from zero.
pub fn wal_filename(segment_id: u64) -> (name: String)
    requires
        segment_id < u64::MAX,
    ensures
        name@ == filename_of(segment_id as nat),
{
    let mut name = "wal-".to_owned();
    push_zero_padded(&mut name, segment_id + 1, 8);
    name.append(".log");
    name
}

/// The segment that a file name denotes.
pub fn parse_segment_id(name: &str) -> (id: Option<u64>)
    ensures
        id == segment_of(name@),
{
    proof {
        reveal_strlit("wal-");
        reveal_strlit(".log");
    }
    let len: usize = name.unicode_len();
    if len < 8 {
        return None;
    }
    if name.get_char(0) != 'w' || name.get_char(1) != 'a' || name.get_char(2) != 'l'
        || name.get_char(3) != '-' {
        assert(name@.take(4)[0] == name@[0]);
        assert(name@.take(4)[1] == name@[1]);
        assert(name@.take(4)[2] == name@[2]);
        assert(name@.take(4)[3] == name@[3]);
        return None;
    }
    assert(name@.take(4) =~= "wal-"@);
    if name.get_char(len - 4) != '.' || name.get_char(len - 3) != 'l' || name.get_char(len - 2)
        != 'o' || name.get_char(len - 1) != 'g' {
        assert(name@.skip(len - 4)[0] == name@[len - 4]);
        assert(name@.skip(len - 4)[1] == name@[len - 3]);
        assert(name@.skip(len - 4)[2] == name@[len - 2]);
        assert(name@.skip(len - 4)[3] == name@[len - 1]);
        return None;
    }
    assert(name@.skip(len - 4) =~= ".log"@);
    let digits = name.substring_char(4, len - 4);
    match parse_unsigned(digits, u64::MAX) {
        Some(n) => if n > 0 {
            Some(n - 1)
        } else {
            None
        },
        None => None,
    }
}

/// `latest` is the highest segment among the files `names`, 0 if there is none.
pub open spec fn is_latest_segment(names: Seq<String>, latest: u64) -> bool {
    &&& forall|i: int|
        #![trigger names[i]]
        0 <= i < names.len() ==> (segment_of(names[i]@) matches Some(id) ==> id <= latest)
    &&& latest == 0 || exists|i: int|
        #![trigger names[i]]
        0 <= i < names.len() && segment_of(names[i]@) == Some(latest)
}

/// Only one segment is the latest.
pub proof fn latest_segment_is_unique(names: Seq<String>, a: u64, b: u64)
    requires
        is_latest_segment(names, a),
        is_latest_segment(names, b),
    ensures
        a == b,
{
}

/// The highest segment among the files of a directory, 0 if there is none.
pub fn discover_latest_segment_id(names: &Vec<String>) -> (latest: u64)
    ensures
        is_latest_segment(names@, latest),
{
    let mut latest: u64 = 0;
    let mut i: usize = 0;
    while i < names.len()
        invariant
            i <= names.len(),
            is_latest_segment(names@.take(i as int), latest),
        decreases names.len() - i,
    {
        let ghost before = names@.take(i as int);
        let ghost after = names@.take(i + 1);
        assert(after[i as int] == names@[i as int]);
        assert(forall|k: int| 0 <= k < i ==> #[trigger] after[k] == before[k]);
        let ghost earlier = latest;
        if let Some(id) = parse_segment_id(names[i].as_str()) {
            if id > latest {
                latest = id;
            }
        }
        proof {
            if latest != 0 && latest == earlier {
                let k = choose|k: int|
                    #![trigger before[k]]
                    0 <= k < before.len() && segment_of(before[k]@) == Some(latest);
                assert(segment_of(after[k]@) == Some(latest));
            }
        }
        i += 1;
    }
    assert(names@.take(i as int) =~= names@);
    latest
}

/// The names among `names` that denote a segment before `cutoff`, in order.
pub open spec fn segments_before(names: Seq<String>, cutoff: u64) -> Seq<Seq<char>>
    decreases names.len(),
{
    if names.len() == 0 {
        Seq::empty()
    } else {
        let rest = segments_before(names.drop_last(), cutoff);
        match segment_of(names.last()@) {
            Some(id) => if id < cutoff {
                rest.push(names.last()@)
            } else {
                rest
            },
            None => rest,
        }
    }
}

/// The names among `names` that denote a segment behind `last`, in order.
pub open spec fn segments_after(names: Seq<String>, last: u64) -> Seq<Seq<char>>
    decreases names.len(),
{
    if names.len() == 0 {
        Seq::empty()
    } else {
        let rest = segments_after(names.drop_last(), last);
        match segment_of(names.last()@) {
            Some(id) => if id > last {
                rest.push(names.last()@)
            } else {
                rest
            },
            None => rest,
        }
    }
}

/// `latest` is the highest segment up to `last` among the files `names`, 0 if there
/// is none.
pub open spec fn is_latest_up_to(names: Seq<String>, last: u64, latest: u64) -> bool {
    &&& latest <= last
    &&& forall|i: int|
        #![trigger names[i]]
        0 <= i < names.len() ==> (segment_of(names[i]@) matches Some(id) ==> id <= latest || id
            > last)
    &&& latest == 0 || exists|i: int|
        #![trigger names[i]]
        0 <= i < names.len() && segment_of(names[i]@) == Some(latest)
}

/// Only one segment is the latest up to another.
pub proof fn latest_up_to_is_unique(names: Seq<String>, last: u64, a: u64, b: u64)
    requires
        is_latest_up_to(names, last, a),
        is_latest_up_to(names, last, b),
    ensures
        a == b,
{
}

/// The highest segment up to `last` among the files of a directory, 0 if there is
/// none, and the names of the segments behind `last`.
pub fn split_at_segment(names: &Vec<String>, last: u64) -> (split: (u64, Vec<String>))
    ensures
        is_latest_up_to(names@, last, split.0),
        texts(split.1@) == segments_after(names@, last),
{
    let mut latest: u64 = 0;
    let mut later: Vec<String> = Vec::new();
    let mut i: usize = 0;
    assert(texts(later@) =~= Seq::empty());
    while i < names.len()
        invariant
            i <= names.len(),
            is_latest_up_to(names@.take(i as int), last, latest),
            texts(later@) == segments_after(names@.take(i as int), last),
        decreases names.len() - i,
    {
        let ghost before = names@.take(i as int);
        let ghost after = names@.take(i + 1);
        assert(after.drop_last() =~= before);
        assert(after[i as int] == names@[i as int]);
        assert(forall|k: int| 0 <= k < i ==> #[trigger] after[k] == before[k]);
        let ghost earlier = latest;
        if let Some(id) = parse_segment_id(names[i].as_str()) {
            if id > last {
                let ghost listed = later@;
                later.push(names[i].clone());
                assert(texts(later@) =~= texts(listed).push(names@[i as int]@));
            } else if id > latest {
                latest = id;
            }
        }
        proof {
            if latest != 0 && latest == earlier {
                let k = choose|k: int|
                    #![trigger before[k]]
                    0 <= k < before.len() && segment_of(before[k]@) == Some(latest);
                assert(segment_of(after[k]@) == Some(latest));
            }
        }
        i += 1;
    }
    assert(names@.take(i as int) =~= names@);
    (latest, later)
}

/// The characters of each of the strings.
pub open spec fn texts(strings: Seq<String>) -> Seq<Seq<char>> {
    Seq::new(strings.len(), |i: int| strings[i]@)
}

/// One of the file names denotes the segment.
pub open spec fn denotes(names: Seq<Seq<char>>, id: u64) -> bool {
    exists|i: int| 0 <= i < names.len() && #[trigger] segment_of(names[i]) == Some(id)
}

/// The names of the later segments are those that denote one.
pub proof fn later_segments_are_listed(names: Seq<String>, last: u64, id: u64)
    ensures
        denotes(segments_after(names, last), id) <==> denotes(texts(names), id) && id > last,
    decreases names.len(),
{
    let listed = segments_after(names, last);
    let all = texts(names);
    if names.len() > 0 {
        let front = names.drop_last();
        later_segments_are_listed(front, last, id);
        let rest = segments_after(front, last);
        assert(texts(front) =~= all.drop_last());
        if denotes(listed, id) {
            let i = choose|i: int|
                0 <= i < listed.len() && #[trigger] segment_of(listed[i]) == Some(id);
            if i < rest.len() {
                assert(segment_of(rest[i]) == Some(id));
                let j = choose|j: int|
                    0 <= j < texts(front).len() && #[trigger] segment_of(texts(front)[j]) == Some(
                        id,
                    );
                assert(segment_of(all[j]) == Some(id));
            } else {
                assert(segment_of(all[names.len() - 1]) == Some(id));
            }
        }
        if denotes(all, id) && id > last {
            let i = choose|i: int| 0 <= i < all.len() && #[trigger] segment_of(all[i]) == Some(id);
            if i < front.len() {
                assert(segment_of(texts(front)[i]) == Some(id));
                let j = choose|j: int|
                    0 <= j < rest.len() && #[trigger] segment_of(rest[j]) == Some(id);
                assert(segment_of(listed[j]) == Some(id));
            } else {
                assert(segment_of(listed[rest.len() as int]) == Some(id));
            }
        }
    }
}

/// Keeps track of the segment that is written to.
#[derive(Debug)]
pub struct WalSegmentManager {
    segment_size: u64,
    current_segment_id: u64,
}

/// The message for a segment size that is not a multiple of [`LSN_ALIGNMENT`].
pub open spec fn misaligned_size_text(segment_size: u64) -> Seq<char> {
    "wal_segment_size "@ + decimal(segment_size as nat) + " must be a multiple of "@ + decimal(8)
}

/// The segment before which the log is recycled up to `lsn`, with `current` as the segment
/// that is written to.
pub open spec fn recycle_cutoff(lsn: Lsn, size: u64, current: u64) -> u64 {
    if lsn.0 / size < current {
        (lsn.0 / size) as u64
    } else {
        current
    }
}

impl WalSegmentManager {
    /// The segment size.
    pub closed spec fn size(&self) -> u64 {
        self.segment_size
    }

    /// The segment that is written to.
    pub closed spec fn current(&self) -> u64 {
        self.current_segment_id
    }

    /// The size is usable.
    pub open spec fn wf(&self) -> bool {
        &&& self.size() > 0
        &&& self.size() % LSN_ALIGNMENT == 0
    }

    /// Opens the log in a directory with the files `names`: at its latest
    /// segment, or at segment 0.
    ///
    /// `InvalidConfig` for a segment size of 0 or one that is not a multiple of
    /// [`LSN_ALIGNMENT`].
    pub fn open(segment_size: u64, names: &Vec<String>) -> (result: Result<Self>)
        ensures
            segment_size > 0 && segment_size % LSN_ALIGNMENT == 0 ==> (result matches Ok(manager)
                && manager.wf() && manager.size() == segment_size && is_latest_segment(
                names@,
                manager.current(),
            )),
            segment_size == 0 ==> (result matches Err(StorageError::InvalidConfig(message))
                && message@ == "wal_segment_size must be > 0"@),
            segment_size % LSN_ALIGNMENT != 0 ==> (result matches Err(
                StorageError::InvalidConfig(message),
            ) && message@ == misaligned_size_text(segment_size)),
    {
        if segment_size == 0 {
            return Err(StorageError::InvalidConfig("wal_segment_size must be > 0".to_owned()));
        }
        if segment_size % LSN_ALIGNMENT != 0 {
            let mut message = "wal_segment_size ".to_owned();
            push_decimal(&mut message, segment_size);
            message.append(" must be a multiple of ");
            push_decimal(&mut message, LSN_ALIGNMENT);
            return Err(StorageError::InvalidConfig(message));
        }
        let current_segment_id = discover_latest_segment_id(names);
        Ok(WalSegmentManager { segment_size, current_segment_id })
    }

    /// Opens the log in a directory with the files `names` at its latest segment up to
    /// `last`, or at segment 0. Also gives the files of later segments, which are to be
    /// deleted.
    ///
    /// `InvalidConfig` as for [`open`](Self::open).
    pub fn open_up_to(segment_size: u64, names: &Vec<String>, last: u64) -> (result: Result<
        (Self, Vec<String>),
    >)
        ensures
            segment_size > 0 && segment_size % LSN_ALIGNMENT == 0 ==> (result matches Ok(opened)
                && opened.0.wf() && opened.0.size() == segment_size && is_latest_up_to(
                names@,
                last,
                opened.0.current(),
            ) && texts(opened.1@) == segments_after(names@, last)),
            segment_size == 0 ==> (result matches Err(StorageError::InvalidConfig(message))
                && message@ == "wal_segment_size must be > 0"@),
            segment_size % LSN_ALIGNMENT != 0 ==> (result matches Err(
                StorageError::InvalidConfig(message),
            ) && message@ == misaligned_size_text(segment_size)),
    {
        let manager = Self::open(segment_size, names)?;
        let (current_segment_id, later) = split_at_segment(names, last);
        Ok((WalSegmentManager { current_segment_id, ..manager }, later))
    }

    /// The segment size in bytes.
    pub fn segment_size(&self) -> (size: u64)
        ensures
            size == self.size(),
    {
        self.segment_size
    }

    /// The ID of the segment that is written to.
    pub fn current_segment_id(&self) -> (id: u64)
        ensures
            id == self.current(),
    {
        self.current_segment_id
    }

    /// Whether a segment file of `len` bytes is to be resized when it is opened.
    pub fn needs_preallocation(&self, len: u64) -> (needed: bool)
        ensures
            needed <==> len != self.size(),
    {
        len != self.segment_size
    }

    /// What has to happen before `lsn` can be written: nothing (`None`), or the
    /// next segment is to be opened and then made the current one with
    /// [`rotate`](Self::rotate), and the question asked again.
    ///
    /// `WalWriteFailed` if `lsn` lies in a segment before the current one.
    pub fn ensure_for_write(&self, lsn: Lsn) -> (result: Result<Option<u64>>)
        requires
            self.wf(),
        ensures
            ({
                let target = lsn.0 / self.size();
                if target == self.current() {
                    result == Ok::<Option<u64>, StorageError>(None)
                } else if target > self.current() {
                    result == Ok::<Option<u64>, StorageError>(Some((self.current() + 1) as u64))
                } else {
                    result matches Err(StorageError::WalWriteFailed(message)) && message@
                        == "cannot write LSN "@ + decimal(lsn.0 as nat) + " to segment "@ + decimal(
                        target as nat,
                    ) + " which is before current segment "@ + decimal(self.current() as nat)
                }
            }),
    {
        let target: u64 = lsn.segment_id(self.segment_size);
        if target == self.current_segment_id {
            return Ok(None);
        }
        if target < self.current_segment_id {
            let mut message = "cannot write LSN ".to_owned();
            push_decimal(&mut message, lsn.0);
            message.append(" to segment ");
            push_decimal(&mut message, target);
            message.append(" which is before current segment ");
            push_decimal(&mut message, self.current_segment_id);
            return Err(StorageError::WalWriteFailed(message));
        }
        Ok(Some(self.current_segment_id + 1))
    }

    /// Makes the next segment, which has just been opened, the current one.
    pub fn rotate(&mut self) -> (id: u64)
        requires
            old(self).current() < u64::MAX,
        ensures
            id == old(self).current() + 1,
            final(self).current() == id,
            final(self).size() == old(self).size(),
    {
        self.current_segment_id = self.current_segment_id + 1;
        self.current_segment_id
    }

    /// The files among `names` to be deleted: the segments before the one that
    /// holds `lsn`. The current segment and later ones always stay.
    pub fn recycle_before(&self, lsn: Lsn, names: &Vec<String>) -> (removed: Vec<String>)
        requires
            self.wf(),
        ensures
            texts(removed@) == segments_before(
                names@,
                if lsn.0 / self.size() < self.current() {
                    (lsn.0 / self.size()) as u64
                } else {
                    self.current()
                },
            ),
            texts(removed@) == segments_before(
                names@,
                recycle_cutoff(lsn, self.size(), self.current()),
            ),
    {
        let target: u64 = lsn.segment_id(self.segment_size);
        let cutoff: u64 = if target < self.current_segment_id {
            target
        } else {
            self.current_segment_id
        };
        let mut removed: Vec<String> = Vec::new();
        let mut i: usize = 0;
        while i < names.len()
            invariant
                i <= names.len(),
                texts(removed@) == segments_before(names@.take(i as int), cutoff),
            decreases names.len() - i,
        {
            let ghost before = names@.take(i as int);
            let ghost after = names@.take(i + 1);
            assert(after.drop_last() =~= before);
            assert(after.last() == names@[i as int]);
            if let Some(id) = parse_segment_id(names[i].as_str()) {
                if id < cutoff {
                    let ghost earlier = removed@;
                    removed.push(names[i].clone());
                    assert(texts(removed@) =~= texts(earlier).push(names@[i as int]@));
                }
            }
            i += 1;
        }
        assert(names@.take(i as int) =~= names@);
        removed
    }
}

/// Every name that recycling picks denotes a segment before the cutoff, so that
/// the segment of the cutoff and later ones stay.
pub proof fn recycling_spares_later_segments(names: Seq<String>, cutoff: u64, i: int)
    requires
        0 <= i < segments_before(names, cutoff).len(),
    ensures
        segment_of(segments_before(names, cutoff)[i]) matches Some(id) && id < cutoff,
    decreases names.len(),
{
    let rest = segments_before(names.drop_last(), cutoff);
    if i < rest.len() {
        recycling_spares_later_segments(names.drop_last(), cutoff, i);
    }
}

/// Recycling picks exactly the names of segments before the cutoff, in order, and no other
/// file; what lies behind a segment is picked in the same way.
pub proof fn recycling_takes_every_earlier_segment(names: Seq<String>, cutoff: u64)
    ensures
        segments_before(names, cutoff) == Seq::new(names.len(), |i: int| names[i]@).filter(
            |name: Seq<char>| segment_of(name) is Some && segment_of(name)->0 < cutoff,
        ),
        segments_after(names, cutoff) == Seq::new(names.len(), |i: int| names[i]@).filter(
            |name: Seq<char>| segment_of(name) is Some && segment_of(name)->0 > cutoff,
        ),
    decreases names.len(),
{
    reveal(Seq::filter);
    let all = Seq::new(names.len(), |i: int| names[i]@);
    if names.len() > 0 {
        let front = names.drop_last();
        recycling_takes_every_earlier_segment(front, cutoff);
        assert(all.drop_last() =~= Seq::new(front.len(), |i: int| front[i]@));
        assert(all.last() == names.last()@);
    } else {
        assert(all =~= Seq::empty());
    }
}

/// Recycling up to an LSN never reaches the segment that holds it, nor the one that is written
/// to; it reaches every segment that ends before both.
pub proof fn recycling_spares_what_is_needed(lsn: Lsn, size: u64, current: u64, id: u64)
    requires
        size > 0,
    ensures
        id < recycle_cutoff(lsn, size, current) <==> id < current && (id + 1) * size <= lsn.0,
{
    vstd::arithmetic::div_mod::lemma_fundamental_div_mod(lsn.0 as int, size as int);
    vstd::arithmetic::div_mod::lemma_mod_bound(lsn.0 as int, size as int);
    let q = lsn.0 as int / size as int;
    if id < q {
        assert((id + 1) * size <= size * q) by (nonlinear_arith)
            requires
                id + 1 <= q,
                size > 0,
        ;
    } else {
        assert((id + 1) * size >= size * q + size) by (nonlinear_arith)
            requires
                id >= q,
                size > 0,
        ;
    }
}

/// A number that was written in digits reads back as itself, if it is small enough.
pub proof fn written_number_is_parsed(n: nat, max: nat)
    ensures
        parsed_unsigned(decimal(n), max) == if n <= max {
            Some(n)
        } else {
            None
        },
{
    decimal_denotes(n);
    assert(is_digit(decimal(n)[0]));
    assert(unsigned_digits(decimal(n)) == decimal(n));
}

/// The latest segment is one for which there is a file, and there is none for a later one;
/// without any file it is the first.
pub proof fn latest_segment_has_a_file(names: Seq<String>, latest: u64, i: int)
    requires
        is_latest_segment(names, latest),
    ensures
        0 <= i < names.len() ==> (segment_of(names[i]@) matches Some(id) ==> id <= latest),
        (forall|k: int|
            #![trigger names[k]]
            0 <= k < names.len() ==> segment_of(names[k]@) is None) ==> latest == 0,
        latest != 0 ==> exists|k: int|
            #![trigger names[k]]
            0 <= k < names.len() && segment_of(names[k]@) == Some(latest),
{
}

} // verus!
