use vstd::prelude::*;

use crate::error::GpuError;

verus! {

/// Name of NVIDIA's platform, the one used when nothing else is asked for.
pub const GPU_NVIDIA_PLATFORM_NAME: &'static str = "NVIDIA CUDA";

/// Name of AMD's platform.
pub const GPU_AMD_PLATFORM_NAME: &'static str = "AMD Accelerated Parallel Processing";

/// The platform name to resolve: the caller's, else the environment's, else NVIDIA's.
pub open spec fn chosen_name(requested: Option<Seq<char>>, from_env: Option<Seq<char>>) -> Seq<char> {
    match requested {
        Some(n) => n,
        None => match from_env {
            Some(e) => e,
            None => GPU_NVIDIA_PLATFORM_NAME@,
        },
    }
}

/// The characters of an optional name.
pub open spec fn str_opt_view(o: Option<&str>) -> Option<Seq<char>> {
    match o {
        Some(s) => Some(s@),
        None => None,
    }
}

/// The characters of an optional owned name.
pub open spec fn string_opt_view(o: Option<String>) -> Option<Seq<char>> {
    match o {
        Some(s) => Some(s@),
        None => None,
    }
}

/// The reported names of a platform listing; `None` where the name query failed.
pub open spec fn names_of<P>(listing: Seq<(P, Option<String>)>) -> Seq<Option<Seq<char>>> {
    listing.map_values(|e: (P, Option<String>)| string_opt_view(e.1))
}

/// Index of the first name equal to `target`, if any.
pub open spec fn first_match(names: Seq<Option<Seq<char>>>, target: Seq<char>) -> Option<int>
    decreases names.len(),
{
    if names.len() == 0 {
        None
    } else {
        match first_match(names.drop_last(), target) {
            Some(i) => Some(i),
            None => if names.last() == Some(target) {
                Some(names.len() - 1)
            } else {
                None
            },
        }
    }
}

/// Picks the name of the platform to resolve.
pub fn platform_name<'a>(requested: Option<&'a str>, from_env: Option<&'a str>) -> (r: &'a str)
    ensures
        r@ == chosen_name(str_opt_view(requested), str_opt_view(from_env)),
{
    match requested {
        Some(n) => n,
        None => match from_env {
            Some(e) => e,
            None => GPU_NVIDIA_PLATFORM_NAME,
        },
    }
}

/// Position of the first platform whose reported name equals `target` exactly.
pub fn position_of_name<P>(listing: &Vec<(P, Option<String>)>, target: &str) -> (r: Option<usize>)
    ensures
        match first_match(names_of(listing@), target@) {
            Some(i) => r == Some(i as usize),
            None => r is None,
        },
{
    let ghost view = names_of(listing@);
    let wanted = target.to_owned();
    let mut i: usize = 0;
    while i < listing.len()
        invariant
            i <= listing.len(),
            view == names_of(listing@),
            wanted@ == target@,
            first_match(view.take(i as int), target@) is None,
        decreases listing.len() - i,
    {
        assert(view.take(i + 1).drop_last() =~= view.take(i as int));
        match &listing[i].1 {
            Some(n) => {
                if *n == wanted {
                    assert(view.take(i + 1).last() == Some(target@));
                    proof {
                        lemma_first_match_prefix(view, target@, i + 1);
                    }
                    return Some(i);
                }
            },
            None => {},
        }
        i = i + 1;
    }
    assert(view.take(i as int) =~= view);
    None
}

/// Outcome of resolving `target` among a platform listing.
pub open spec fn resolution<P>(
    disabled: bool,
    listing: Result<Vec<(P, Option<String>)>, GpuError>,
    target: Seq<char>,
) -> Result<P, GpuError> {
    if disabled {
        Err(GpuError::Disabled)
    } else {
        match listing {
            Err(e) => Err(e),
            Ok(v) => match first_match(names_of(v@), target) {
                Some(i) => Ok(v@[i].0),
                None => Err(GpuError::PlatformNotFound),
            },
        }
    }
}

/// Resolves `target` among the installed platforms, each listed with its
/// reported name (`None` where the name query failed).
///
/// Fails with `Disabled` when GPU use is switched off, whatever the listing;
/// hands on the driver's error when listing failed; fails with
/// `PlatformNotFound` when no name equals `target`; else returns the first
/// platform whose name equals it.
pub fn find_platform<P>(
    disabled: bool,
    listing: Result<Vec<(P, Option<String>)>, GpuError>,
    target: &str,
) -> (r: Result<P, GpuError>)
    ensures
        r == resolution(disabled, listing, target@),
{
    if disabled {
        return Err(GpuError::Disabled);
    }
    match listing {
        Err(e) => Err(e),
        Ok(mut platforms) => match position_of_name(&platforms, target) {
            Some(i) => {
                proof {
                    lemma_first_match_found(names_of(platforms@), target@);
                }
                let (p, _name) = platforms.remove(i);
                Ok(p)
            },
            None => Err(GpuError::PlatformNotFound),
        },
    }
}

/// Resolves the platform to work on: the one named by the caller, else the
/// one named by the environment, else NVIDIA's (see `find_platform`).
pub fn get_platform<P>(
    disabled: bool,
    requested: Option<&str>,
    from_env: Option<&str>,
    listing: Result<Vec<(P, Option<String>)>, GpuError>,
) -> (r: Result<P, GpuError>)
    ensures
        r == resolution(
            disabled,
            listing,
            chosen_name(str_opt_view(requested), str_opt_view(from_env)),
        ),
{
    let target = platform_name(requested, from_env);
    find_platform(disabled, listing, target)
}

/// The devices of a platform, as the driver listed them, unless GPU use is
/// switched off. An empty listing is a valid result.
pub fn get_devices<D>(
    disabled: bool,
    listing: Result<Vec<D>, GpuError>,
) -> (r: Result<Vec<D>, GpuError>)
    ensures
        disabled ==> r == Err::<Vec<D>, GpuError>(GpuError::Disabled),
        !disabled ==> r == listing,
{
    if disabled {
        return Err(GpuError::Disabled);
    }
    listing
}

/// The driver's answer to a global-memory-size query.
pub enum DeviceInfoValue {
    /// The size in bytes.
    GlobalMemSize(u64),
    /// An answer of another kind.
    Other,
}

/// The device's global memory size in bytes, from the driver's answer.
pub fn get_memory(answer: Result<DeviceInfoValue, GpuError>) -> (r: Result<u64, GpuError>)
    ensures
        match answer {
            Ok(DeviceInfoValue::GlobalMemSize(sz)) => r == Ok::<u64, GpuError>(sz),
            Ok(DeviceInfoValue::Other) => r == Err::<u64, GpuError>(GpuError::MemoryUnavailable),
            Err(e) => r == Err::<u64, GpuError>(e),
        },
{
    match answer {
        Ok(DeviceInfoValue::GlobalMemSize(sz)) => Ok(sz),
        Ok(DeviceInfoValue::Other) => Err(GpuError::MemoryUnavailable),
        Err(e) => Err(e),
    }
}

/// Resolving one name twice over the same installed platform names, listed
/// in any order, finds a platform both times or neither time, and the two
/// platforms found carry the same name: the requested one.
pub proof fn lemma_resolution_stable(
    first: Seq<Option<Seq<char>>>,
    second: Seq<Option<Seq<char>>>,
    target: Seq<char>,
)
    requires
        forall|n: Option<Seq<char>>| first.contains(n) <==> second.contains(n),
    ensures
        match (first_match(first, target), first_match(second, target)) {
            (Some(i), Some(j)) => first[i] == second[j] && first[i] == Some(target),
            (None, None) => true,
            _ => false,
        },
{
    lemma_first_match_found(first, target);
    lemma_first_match_found(second, target);
    if let Some(i) = first_match(first, target) {
        assert(first.contains(Some(target)));
        assert(second.contains(Some(target)));
    }
    if let Some(j) = first_match(second, target) {
        assert(second.contains(Some(target)));
        assert(first.contains(Some(target)));
    }
}

/// The first match is in range and carries the target name; no match means
/// that no name equals the target.
proof fn lemma_first_match_found(names: Seq<Option<Seq<char>>>, target: Seq<char>)
    ensures
        match first_match(names, target) {
            Some(i) => 0 <= i < names.len() && names[i] == Some(target) && forall|j: int|
                0 <= j < i ==> names[j] != Some(target),
            None => forall|j: int| 0 <= j < names.len() ==> names[j] != Some(target),
        },
    decreases names.len(),
{
    if names.len() > 0 {
        lemma_first_match_found(names.drop_last(), target);
        assert forall|j: int| 0 <= j < names.len() - 1 implies names[j] == names.drop_last()[j] by {}
    }
}

/// A match found in a prefix stays the first match of the whole sequence.
proof fn lemma_first_match_prefix(names: Seq<Option<Seq<char>>>, target: Seq<char>, k: int)
    requires
        0 <= k <= names.len(),
        first_match(names.take(k), target) is Some,
    ensures
        first_match(names, target) == first_match(names.take(k), target),
    decreases names.len() - k,
{
    if k < names.len() {
        assert(names.take(k + 1).drop_last() =~= names.take(k));
        lemma_first_match_prefix(names, target, k + 1);
    } else {
        assert(names.take(k) =~= names);
    }
}

} // verus!
