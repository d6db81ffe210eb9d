//! Listing profiles: which of them are shown, and in which order.

use crate::date::Timestamp;
use crate::profile::Profile;
use crate::scan::{decides, filter, kept_profiles, RawProfile};
use vstd::prelude::*;

verus! {

/// The creation date of `profile` in nanoseconds since the epoch.
pub open spec fn created(profile: Profile) -> int {
    profile.info.creation_date.instant()
}

/// `profiles` come oldest first.
pub open spec fn is_oldest_first(profiles: Seq<Profile>) -> bool {
    forall|i: int, j: int| 0 <= i <= j < profiles.len() ==> created(profiles[i]) <= created(profiles[j])
}

/// Where a profile created at `date` goes into `sorted`: behind the last
/// profile that is not younger.
pub open spec fn insertion_point(sorted: Seq<Profile>, date: int) -> int
    decreases sorted.len(),
{
    if sorted.len() == 0 {
        0
    } else if created(sorted.last()) <= date {
        sorted.len() as int
    } else {
        insertion_point(sorted.drop_last(), date)
    }
}

/// `profiles` oldest first; profiles of the same creation date keep the
/// order in which they stand in `profiles`.
pub open spec fn oldest_first(profiles: Seq<Profile>) -> Seq<Profile>
    decreases profiles.len(),
{
    if profiles.len() == 0 {
        Seq::empty()
    } else {
        let earlier = oldest_first(profiles.drop_last());
        let last = profiles.last();
        earlier.insert(insertion_point(earlier, created(last)), last)
    }
}

/// The insertion point lies within the sequence; in a sequence that is
/// oldest first, no profile before it is younger than `date` and every
/// profile from it on is.
pub proof fn lemma_insertion_point(sorted: Seq<Profile>, date: int)
    ensures
        0 <= insertion_point(sorted, date) <= sorted.len(),
        forall|i: int|
            insertion_point(sorted, date) <= i < sorted.len() ==> date < created(
                #[trigger] sorted[i],
            ),
        is_oldest_first(sorted) ==> forall|i: int|
            0 <= i < insertion_point(sorted, date) ==> created(#[trigger] sorted[i]) <= date,
    decreases sorted.len(),
{
    if sorted.len() > 0 {
        if created(sorted.last()) <= date {
        } else {
            lemma_insertion_point(sorted.drop_last(), date);
            let shorter = sorted.drop_last();
            assert forall|i: int| insertion_point(sorted, date) <= i < sorted.len() implies date
                < created(#[trigger] sorted[i]) by {
                if i < shorter.len() {
                    assert(sorted[i] == shorter[i]);
                }
            }
            if is_oldest_first(sorted) {
                assert forall|i: int, j: int| 0 <= i <= j < shorter.len() implies created(
                    shorter[i],
                ) <= created(shorter[j]) by {
                    assert(shorter[i] == sorted[i] && shorter[j] == sorted[j]);
                }
                assert forall|i: int| 0 <= i < insertion_point(sorted, date) implies created(
                    #[trigger] sorted[i],
                ) <= date by {
                    assert(sorted[i] == shorter[i]);
                }
            }
        }
    }
}

/// Sorting by creation date gives the same profiles, each as often as
/// before, and gives them oldest first.
pub proof fn lemma_oldest_first(profiles: Seq<Profile>)
    ensures
        is_oldest_first(oldest_first(profiles)),
        oldest_first(profiles).to_multiset() == profiles.to_multiset(),
        oldest_first(profiles).len() == profiles.len(),
    decreases profiles.len(),
{
    broadcast use vstd::seq_lib::group_to_multiset_ensures;

    if profiles.len() == 0 {
        assert(profiles =~= Seq::<Profile>::empty());
    } else {
        let earlier = oldest_first(profiles.drop_last());
        let last = profiles.last();
        let at = insertion_point(earlier, created(last));
        let sorted = earlier.insert(at, last);
        lemma_oldest_first(profiles.drop_last());
        lemma_insertion_point(earlier, created(last));
        assert forall|i: int, j: int| 0 <= i <= j < sorted.len() implies created(sorted[i])
            <= created(sorted[j]) by {
            if i < at && j > at {
                assert(sorted[i] == earlier[i] && sorted[j] == earlier[j - 1]);
            } else if i > at {
                assert(sorted[i] == earlier[i - 1] && sorted[j] == earlier[j - 1]);
            } else if j < at {
                assert(sorted[i] == earlier[i] && sorted[j] == earlier[j]);
            } else if i == at && j > at {
                assert(sorted[j] == earlier[j - 1]);
            } else if i < at && j == at {
                assert(sorted[i] == earlier[i]);
            }
        }
        assert(sorted.remove(at) =~= earlier);
        assert(sorted[at] == last);
        assert(sorted.to_multiset() =~= earlier.to_multiset().insert(last)) by {
            vstd::seq_lib::to_multiset_remove(sorted, at);
            assert(sorted.to_multiset().count(last) > 0) by {
                assert(sorted.contains(last));
            }
        }
        assert(profiles =~= profiles.drop_last().push(last));
        assert(profiles.to_multiset() =~= profiles.drop_last().to_multiset().insert(last));
    }
}

/// Sorts `profiles` by creation date, oldest first. Profiles of the same
/// creation date keep their order.
pub fn sort_by_creation_date(profiles: &Vec<Profile>) -> (sorted: Vec<Profile>)
    ensures
        sorted@ == oldest_first(profiles@),
        is_oldest_first(sorted@),
        sorted@.to_multiset() == profiles@.to_multiset(),
{
    let mut sorted: Vec<Profile> = Vec::new();
    let mut at: usize = 0;
    assert(profiles@.take(0) =~= Seq::<Profile>::empty());
    while at < profiles.len()
        invariant
            at <= profiles.len(),
            sorted@ == oldest_first(profiles@.take(at as int)),
        decreases profiles.len() - at,
    {
        let ghost upto = profiles@.take(at + 1);
        proof {
            assert(upto.drop_last() =~= profiles@.take(at as int));
            assert(upto.last() == profiles@[at as int]);
            lemma_oldest_first(profiles@.take(at as int));
        }
        let profile = &profiles[at];
        let date = profile.info.creation_date.to_nanos();
        let mut place: usize = sorted.len();
        assert(sorted@.take(place as int) =~= sorted@);
        while place > 0 && date < sorted[place - 1].info.creation_date.to_nanos()
            invariant
                place <= sorted.len(),
                date == created(*profile),
                insertion_point(sorted@, date as int) == insertion_point(
                    sorted@.take(place as int),
                    date as int,
                ),
            decreases place,
        {
            proof {
                let ghost front = sorted@.take(place as int);
                assert(front.last() == sorted@[place - 1]);
                assert(front.drop_last() =~= sorted@.take(place - 1));
            }
            place = place - 1;
        }
        proof {
            let ghost front = sorted@.take(place as int);
            if place > 0 {
                assert(front.last() == sorted@[place - 1]);
            }
            assert(insertion_point(front, date as int) == place);
        }
        sorted.insert(place, profile.duplicate());
        at = at + 1;
    }
    proof {
        assert(profiles@.take(profiles@.len() as int) =~= profiles@);
        lemma_oldest_first(profiles@);
    }
    sorted
}

/// Accepts the profiles of a listing: those that expire at `date` or
/// before it, where a date is given, and hold `text`, where a text is
/// given.
pub open spec fn is_listed(text: Option<&str>, date: Option<Timestamp>) -> spec_fn(Profile) -> bool {
    |profile: Profile|
        {
            &&& date matches Some(date) ==> profile.info.expiration_date.instant()
                <= date.instant()
            &&& text matches Some(text) ==> profile.info.spec_contains(text@)
        }
}

/// Lists the profiles in `files`, oldest first.
///
/// With a `date`, only profiles that expire at that date or before it are
/// listed; with a `text`, only profiles that hold it in their name, their
/// application identifier or their uuid, the case of letters ignored.
pub fn list(files: Vec<RawProfile>, text: Option<&str>, date: Option<Timestamp>) -> (listed: Vec<
    Profile,
>)
    ensures
        listed@ == oldest_first(kept_profiles(files@, is_listed(text, date))),
        is_oldest_first(listed@),
{
    let wanted = |profile: &Profile| -> (listed: bool)
        ensures
            listed == is_listed(text, date)(*profile),
        {
            let expired = match date {
                Some(date) => profile.info.expiration_date.is_at_or_before(&date),
                None => true,
            };
            let found = match text {
                Some(text) => profile.info.contains(text),
                None => true,
            };
            expired && found
        };
    assert(decides(wanted, is_listed(text, date)));
    let kept = filter(files, wanted);
    sort_by_creation_date(&kept)
}

} // verus!
