//! Decoding many profiles at once and keeping those that a predicate
//! accepts.
//!
//! A file that holds no profile is left out without a report: to a scan it
//! is the same as a profile that the predicate refuses.

use crate::profile::{decoded_data, Info, Profile};
use rayon::iter::{IntoParallelRefIterator, ParallelIterator};
use vstd::prelude::*;

verus! {

/// The bytes of one file, with the path they were read from.
#[derive(Debug, Clone)]
pub struct RawProfile {
    /// The path of the file, or the name of the archive entry.
    pub path: String,
    /// All the bytes of the file.
    pub data: Vec<u8>,
}

/// The profiles that `files` hold, in the order of `files`; a file that
/// holds no profile info is left out.
pub open spec fn decoded_profiles(files: Seq<RawProfile>) -> Seq<Profile>
    decreases files.len(),
{
    if files.len() == 0 {
        Seq::empty()
    } else {
        let earlier = decoded_profiles(files.drop_last());
        match decoded_data(files.last().data@) {
            Some(info) => earlier.push(Profile { path: files.last().path, info }),
            None => earlier,
        }
    }
}

/// `kept` is what is left of `candidates` after `f` was asked about each:
/// in the same order, every profile for which `f` could answer `true` and
/// did, and none for which it answered `false`.
pub open spec fn is_selection<F: Fn(&Profile) -> bool>(
    candidates: Seq<Profile>,
    f: F,
    kept: Seq<Profile>,
) -> bool
    decreases candidates.len(),
{
    if candidates.len() == 0 {
        kept.len() == 0
    } else {
        let last = candidates.last();
        ||| {
            &&& f.ensures((&last,), true)
            &&& kept.len() > 0
            &&& kept.last() == last
            &&& is_selection(candidates.drop_last(), f, kept.drop_last())
        }
        ||| {
            &&& f.ensures((&last,), false)
            &&& is_selection(candidates.drop_last(), f, kept)
        }
    }
}

/// The answers of `f` are those of `accepts`: whatever `f` returns for a
/// profile is what `accepts` says of it.
pub open spec fn decides<F: Fn(&Profile) -> bool>(f: F, accepts: spec_fn(Profile) -> bool) -> bool {
    forall|profile: Profile, answer: bool|
        f.ensures((&profile,), answer) ==> answer == accepts(profile)
}

/// Where the answers of `f` are those of `accepts`, a selection by `f` is
/// the sequence filtered by `accepts`.
pub proof fn lemma_selection_is_filter<F: Fn(&Profile) -> bool>(
    candidates: Seq<Profile>,
    f: F,
    kept: Seq<Profile>,
    accepts: spec_fn(Profile) -> bool,
)
    requires
        is_selection(candidates, f, kept),
        decides(f, accepts),
    ensures
        kept == candidates.filter(accepts),
    decreases candidates.len(),
{
    reveal(Seq::filter);
    if candidates.len() == 0 {
        assert(kept =~= candidates.filter(accepts));
    } else {
        let last = candidates.last();
        if accepts(last) {
            assert(!f.ensures((&last,), false));
            lemma_selection_is_filter(candidates.drop_last(), f, kept.drop_last(), accepts);
            assert(kept =~= kept.drop_last().push(last));
        } else {
            assert(!f.ensures((&last,), true));
            lemma_selection_is_filter(candidates.drop_last(), f, kept, accepts);
        }
    }
}

/// The profiles of `files` that `accepts` accepts, in the order of `files`:
/// what a scan with a predicate that answers as `accepts` does keeps.
pub open spec fn kept_profiles(files: Seq<RawProfile>, accepts: spec_fn(Profile) -> bool) -> Seq<
    Profile,
> {
    decoded_profiles(files).filter(accepts)
}

/// The profiles of files given one after the other are those of the first
/// files, then those of the second.
pub proof fn lemma_decoded_profiles_add(first: Seq<RawProfile>, second: Seq<RawProfile>)
    ensures
        decoded_profiles(first + second) == decoded_profiles(first) + decoded_profiles(second),
    decreases second.len(),
{
    if second.len() == 0 {
        assert(first + second =~= first);
        assert(decoded_profiles(first) + decoded_profiles(second) =~= decoded_profiles(first));
    } else {
        assert((first + second).drop_last() =~= first + second.drop_last());
        assert((first + second).last() == second.last());
        lemma_decoded_profiles_add(first, second.drop_last());
        let earlier = decoded_profiles(first) + decoded_profiles(second.drop_last());
        match decoded_data(second.last().data@) {
            Some(info) => {
                let profile = Profile { path: second.last().path, info };
                assert(earlier.push(profile) =~= decoded_profiles(first) + decoded_profiles(
                    second.drop_last(),
                ).push(profile));
            },
            None => {},
        }
    }
}

/// What a scan keeps of files given one after the other is what it keeps
/// of the first files, then what it keeps of the second.
pub proof fn lemma_kept_profiles_add(
    first: Seq<RawProfile>,
    second: Seq<RawProfile>,
    accepts: spec_fn(Profile) -> bool,
)
    ensures
        kept_profiles(first + second, accepts) == kept_profiles(first, accepts) + kept_profiles(
            second,
            accepts,
        ),
{
    lemma_decoded_profiles_add(first, second);
    Seq::filter_distributes_over_add(decoded_profiles(first), decoded_profiles(second), accepts);
}

/// A scan keeps the same profiles, each as often, in whatever order the
/// files are given: the order of the files decides the order of the result
/// and nothing else.
pub proof fn lemma_scan_ignores_order(
    files: Seq<RawProfile>,
    shuffled: Seq<RawProfile>,
    accepts: spec_fn(Profile) -> bool,
)
    requires
        files.to_multiset() == shuffled.to_multiset(),
    ensures
        kept_profiles(files, accepts).to_multiset() == kept_profiles(
            shuffled,
            accepts,
        ).to_multiset(),
        kept_profiles(files, accepts).len() == kept_profiles(shuffled, accepts).len(),
    decreases files.len(),
{
    broadcast use vstd::seq_lib::group_to_multiset_ensures;

    vstd::seq_lib::to_multiset_len(files);
    vstd::seq_lib::to_multiset_len(shuffled);
    vstd::seq_lib::to_multiset_len(kept_profiles(files, accepts));
    vstd::seq_lib::to_multiset_len(kept_profiles(shuffled, accepts));
    if files.len() == 0 {
        assert(shuffled.len() == 0);
        assert(files =~= shuffled);
    } else {
        let last = files.last();
        let rest = files.drop_last();
        assert(files.contains(last));
        assert(shuffled.to_multiset().count(last) > 0);
        assert(shuffled.contains(last));
        let at = choose|at: int| 0 <= at < shuffled.len() && shuffled[at] == last;
        let before = shuffled.take(at);
        let after = shuffled.skip(at + 1);
        let others = shuffled.remove(at);
        assert(files.remove(files.len() - 1) =~= rest);
        assert(rest.to_multiset() =~= others.to_multiset());
        lemma_scan_ignores_order(rest, others, accepts);

        let one = seq![last];
        assert(files =~= rest + one);
        assert(shuffled =~= (before + one) + after);
        assert(others =~= before + after);
        lemma_kept_profiles_add(rest, one, accepts);
        lemma_kept_profiles_add(before, one, accepts);
        lemma_kept_profiles_add(before + one, after, accepts);
        lemma_kept_profiles_add(before, after, accepts);
        let k_one = kept_profiles(one, accepts);
        let k_before = kept_profiles(before, accepts);
        let k_after = kept_profiles(after, accepts);
        vstd::seq_lib::lemma_multiset_commutative(kept_profiles(rest, accepts), k_one);
        vstd::seq_lib::lemma_multiset_commutative(k_before, k_one);
        vstd::seq_lib::lemma_multiset_commutative(k_before + k_one, k_after);
        vstd::seq_lib::lemma_multiset_commutative(k_before, k_after);
        assert(kept_profiles(shuffled, accepts).to_multiset() =~= kept_profiles(
            others,
            accepts,
        ).to_multiset().add(k_one.to_multiset()));
        assert(kept_profiles(files, accepts).to_multiset() =~= kept_profiles(
            shuffled,
            accepts,
        ).to_multiset());
    }
}

/// Accepts every profile.
pub open spec fn accepts_all() -> spec_fn(Profile) -> bool {
    |profile: Profile| true
}

/// Accepts the files that hold a profile info.
pub open spec fn holds_profile() -> spec_fn(RawProfile) -> bool {
    |file: RawProfile| decoded_data(file.data@) is Some
}

/// There is one decoded profile for each file that holds a profile info.
pub proof fn lemma_decoded_profiles_len(files: Seq<RawProfile>)
    ensures
        decoded_profiles(files).len() == files.filter(holds_profile()).len(),
    decreases files.len(),
{
    reveal(Seq::filter);
    if files.len() > 0 {
        lemma_decoded_profiles_len(files.drop_last());
    }
}

/// A scan with a predicate that accepts everything keeps a profile for each
/// file that holds one, and nothing else: of `n` files that hold a profile
/// and any number that hold none, exactly `n` profiles are kept.
pub proof fn lemma_accepting_all_keeps_every_profile<F: Fn(&Profile) -> bool>(
    files: Seq<RawProfile>,
    f: F,
    kept: Seq<Profile>,
)
    requires
        is_selection(decoded_profiles(files), f, kept),
        decides(f, accepts_all()),
    ensures
        kept == decoded_profiles(files),
        kept.len() == files.filter(holds_profile()).len(),
{
    let candidates = decoded_profiles(files);
    lemma_selection_is_filter(candidates, f, kept, accepts_all());
    lemma_filter_by_accepts_all(candidates);
    lemma_decoded_profiles_len(files);
}

/// Filtering by a predicate that accepts everything changes nothing.
pub proof fn lemma_filter_by_accepts_all(profiles: Seq<Profile>)
    ensures
        profiles.filter(accepts_all()) == profiles,
    decreases profiles.len(),
{
    reveal(Seq::filter);
    if profiles.len() > 0 {
        lemma_filter_by_accepts_all(profiles.drop_last());
        assert(profiles.drop_last().push(profiles.last()) =~= profiles);
    }
}

/// Decodes every file of `files` with [`Info::from_xml_data`], on the
/// threads of `rayon`: one result for each file, in the order of `files`.
#[verifier::external_body]
fn decode_all(files: &Vec<RawProfile>) -> (infos: Vec<Option<Info>>)
    ensures
        infos@.len() == files@.len(),
        forall|i: int| 0 <= i < files@.len() ==> infos@[i] == decoded_data(#[trigger] files@[i].data@),
{
    files.par_iter().map(|file| Info::from_xml_data(&file.data)).collect()
}

/// Decodes `files` and keeps the profiles for which `f` returns `true`.
///
/// The files are decoded concurrently. A file that holds no profile is
/// dropped like one that `f` refuses. The profiles come in the order of
/// their files.
pub fn filter<F>(files: Vec<RawProfile>, f: F) -> (kept: Vec<Profile>) where
    F: Fn(&Profile) -> bool,

    requires
        forall|profile: &Profile| #[trigger] f.requires((profile,)),
    ensures
        is_selection(decoded_profiles(files@), f, kept@),
        forall|accepts: spec_fn(Profile) -> bool| #[trigger]
            decides(f, accepts) ==> kept@ == kept_profiles(files@, accepts),
{
    let infos = decode_all(&files);
    let mut kept: Vec<Profile> = Vec::new();
    let mut at: usize = 0;
    assert(files@.take(0) =~= Seq::<RawProfile>::empty());
    while at < files.len()
        invariant
            at <= files.len(),
            infos@.len() == files@.len(),
            forall|i: int|
                0 <= i < files@.len() ==> infos@[i] == decoded_data(#[trigger] files@[i].data@),
            forall|profile: &Profile| #[trigger] f.requires((profile,)),
            is_selection(decoded_profiles(files@.take(at as int)), f, kept@),
        decreases files.len() - at,
    {
        let ghost before = files@.take(at as int);
        let ghost upto = files@.take(at + 1);
        let ghost earlier = kept@;
        proof {
            assert(upto.drop_last() =~= before);
            assert(upto.last() == files@[at as int]);
        }
        match &infos[at] {
            Some(info) => {
                let profile = Profile { path: files[at].path.clone(), info: info.duplicate() };
                proof {
                    let candidates = decoded_profiles(upto);
                    assert(candidates == decoded_profiles(before).push(profile));
                    assert(candidates.last() == profile);
                    assert(candidates.drop_last() =~= decoded_profiles(before));
                }
                if f(&profile) {
                    kept.push(profile);
                    assert(kept@.drop_last() =~= earlier);
                    assert(kept@.last() == profile);
                }
            },
            None => {
                assert(decoded_profiles(upto) == decoded_profiles(before));
            },
        }
        at = at + 1;
    }
    proof {
        assert(files@.take(files@.len() as int) =~= files@);
        assert forall|accepts: spec_fn(Profile) -> bool| #[trigger]
            decides(f, accepts) implies kept@ == kept_profiles(files@, accepts) by {
            lemma_selection_is_filter(decoded_profiles(files@), f, kept@, accepts);
        }
    }
    kept
}

} // verus!
