use vstd::prelude::*;

use crate::error::GpuError;
use crate::text::{parse_count, parse_count_str, split, split_str, trim, trim_str};

verus! {

/// Core count assumed for a device whose name the table does not hold.
pub const DEFAULT_CORE_COUNT: usize = 2560;

/// Laying entries over a table: a name that the later entries give takes
/// their last count, and any other name keeps what the earlier table holds.
pub proof fn lemma_overrides_win(
    base: Seq<(Seq<char>, usize)>,
    extra: Seq<(Seq<char>, usize)>,
    name: Seq<char>,
)
    ensures
        table_of(extra).contains_key(name) ==> table_of(base + extra).contains_key(name)
            && table_of(base + extra)[name] == table_of(extra)[name],
        !table_of(extra).contains_key(name) ==> (table_of(base + extra).contains_key(name)
            <==> table_of(base).contains_key(name)),
        !table_of(extra).contains_key(name) && table_of(base).contains_key(name) ==> table_of(
            base + extra,
        )[name] == table_of(base)[name],
{
    lemma_last_count_concat(base, extra, name);
}

proof fn lemma_last_count_concat(
    base: Seq<(Seq<char>, usize)>,
    extra: Seq<(Seq<char>, usize)>,
    name: Seq<char>,
)
    ensures
        last_count(base + extra, name) == match last_count(extra, name) {
            Some(c) => Some(c),
            None => last_count(base, name),
        },
    decreases extra.len(),
{
    if extra.len() == 0 {
        assert(base + extra =~= base);
    } else {
        assert((base + extra).drop_last() =~= base + extra.drop_last());
        lemma_last_count_concat(base, extra.drop_last(), name);
    }
}

/// Table entries as (name, core count) pairs of plain values.
pub open spec fn entries_view(v: Seq<(String, usize)>) -> Seq<(Seq<char>, usize)> {
    v.map_values(|e: (String, usize)| (e.0@, e.1))
}

/// The core count of the last entry named `name`: later entries override
/// earlier ones.
pub open spec fn last_count(entries: Seq<(Seq<char>, usize)>, name: Seq<char>) -> Option<usize>
    decreases entries.len(),
{
    if entries.len() == 0 {
        None
    } else if entries.last().0 == name {
        Some(entries.last().1)
    } else {
        last_count(entries.drop_last(), name)
    }
}

/// The table that a list of entries makes, each entry overriding those before it.
pub open spec fn table_of(entries: Seq<(Seq<char>, usize)>) -> Map<Seq<char>, usize> {
    Map::new(
        |name: Seq<char>| last_count(entries, name) is Some,
        |name: Seq<char>| last_count(entries, name)->0,
    )
}

/// The built-in core counts of common consumer and datacenter GPUs.
pub open spec fn builtin_entries() -> Seq<(Seq<char>, usize)> {
    seq![
        ("gfx1010"@, 2560usize),
        ("Quadro RTX 6000"@, 4608usize),
        ("TITAN RTX"@, 4608usize),
        ("Tesla V100"@, 5120usize),
        ("Tesla P100"@, 3584usize),
        ("Tesla T4"@, 2560usize),
        ("Quadro M5000"@, 2048usize),
        ("GeForce RTX 2080 Ti"@, 4352usize),
        ("GeForce RTX 2080 SUPER"@, 3072usize),
        ("GeForce RTX 2080"@, 2944usize),
        ("GeForce RTX 2070 SUPER"@, 2560usize),
        ("GeForce GTX 1080 Ti"@, 3584usize),
        ("GeForce GTX 1080"@, 2560usize),
        ("GeForce GTX 2060"@, 1920usize),
        ("GeForce GTX 1660 Ti"@, 1536usize),
        ("GeForce GTX 1060"@, 1280usize),
        ("GeForce GTX 1650 SUPER"@, 1280usize),
        ("GeForce GTX 1650"@, 896usize),
    ]
}

/// One `name:cores` entry of the override list: exactly one `:`, both sides
/// trimmed, the count a valid `usize`.
pub open spec fn parse_entry(card: Seq<char>) -> Option<(Seq<char>, usize)> {
    let fields = split(card, ':');
    if fields.len() == 2 {
        match parse_count(trim(fields[1])) {
            Some(cores) => Some((trim(fields[0]), cores)),
            None => None,
        }
    } else {
        None
    }
}

/// The entries of a comma-separated override list, or `None` when any entry
/// is malformed.
pub open spec fn parse_overrides(s: Seq<char>) -> Option<Seq<(Seq<char>, usize)>> {
    let cards = split(s, ',');
    if forall|i: int| 0 <= i < cards.len() ==> (#[trigger] parse_entry(cards[i])) is Some {
        Some(cards.map_values(|c: Seq<char>| parse_entry(c)->0))
    } else {
        None
    }
}

/// Reads one `name:cores` entry.
fn parse_entry_str(card: &str) -> (r: Option<(String, usize)>)
    ensures
        match r {
            Some(e) => parse_entry(card@) == Some((e.0@, e.1)),
            None => parse_entry(card@) is None,
        },
{
    let fields = split_str(card, ':');
    assert(fields@.len() == split(card@, ':').len());
    if fields.len() != 2 {
        return None;
    }
    assert(fields@[0]@ == split(card@, ':')[0]);
    assert(fields@[1]@ == split(card@, ':')[1]);
    let name = trim_str(fields[0].as_str());
    let count_text = trim_str(fields[1].as_str());
    match parse_count_str(count_text.as_str()) {
        Some(cores) => Some((name, cores)),
        None => None,
    }
}

/// Reads a comma-separated list of `name:cores` entries, in order.
pub fn parse_custom_gpus(s: &str) -> (r: Result<Vec<(String, usize)>, GpuError>)
    ensures
        match r {
            Ok(v) => parse_overrides(s@) == Some(entries_view(v@)),
            Err(e) => parse_overrides(s@) is None && e == GpuError::InvalidCustomGpu,
        },
{
    let cards = split_str(s, ',');
    let ghost pieces = split(s@, ',');
    let mut out: Vec<(String, usize)> = Vec::new();
    let mut i: usize = 0;
    while i < cards.len()
        invariant
            i <= cards.len(),
            crate::text::views(cards@) == pieces,
            pieces == split(s@, ','),
            entries_view(out@) == pieces.take(i as int).map_values(
                |c: Seq<char>| parse_entry(c)->0,
            ),
            forall|j: int| 0 <= j < i ==> (#[trigger] parse_entry(pieces[j])) is Some,
        decreases cards.len() - i,
    {
        assert(cards@[i as int]@ == pieces[i as int]);
        match parse_entry_str(cards[i].as_str()) {
            Some(e) => {
                let ghost before = entries_view(out@);
                out.push(e);
                assert(entries_view(out@) =~= before.push((e.0@, e.1)));
                assert(pieces.take(i + 1).map_values(|c: Seq<char>| parse_entry(c)->0)
                    =~= pieces.take(i as int).map_values(|c: Seq<char>| parse_entry(c)->0).push(
                    parse_entry(pieces[i as int])->0,
                ));
            },
            None => {
                return Err(GpuError::InvalidCustomGpu);
            },
        }
        i = i + 1;
    }
    assert(pieces.take(i as int) =~= pieces);
    Ok(out)
}

/// Estimated core counts by exact, case-sensitive device name.
pub struct CoreCounts {
    entries: Vec<(String, usize)>,
}

impl View for CoreCounts {
    type V = Map<Seq<char>, usize>;

    closed spec fn view(&self) -> Map<Seq<char>, usize> {
        table_of(entries_view(self.entries@))
    }
}

/// Appends one entry.
fn push_entry(v: &mut Vec<(String, usize)>, name: String, cores: usize)
    ensures
        entries_view(final(v)@) == entries_view(old(v)@).push((name@, cores)),
{
    let ghost before = entries_view(v@);
    v.push((name, cores));
    assert(entries_view(v@) =~= before.push((name@, cores)));
}

/// The built-in entries, in order.
fn builtin_list() -> (v: Vec<(String, usize)>)
    ensures
        entries_view(v@) == builtin_entries(),
{
    let mut v: Vec<(String, usize)> = Vec::new();
    push_entry(&mut v, "gfx1010".to_owned(), 2560);
    push_entry(&mut v, "Quadro RTX 6000".to_owned(), 4608);
    push_entry(&mut v, "TITAN RTX".to_owned(), 4608);
    push_entry(&mut v, "Tesla V100".to_owned(), 5120);
    push_entry(&mut v, "Tesla P100".to_owned(), 3584);
    push_entry(&mut v, "Tesla T4".to_owned(), 2560);
    push_entry(&mut v, "Quadro M5000".to_owned(), 2048);
    push_entry(&mut v, "GeForce RTX 2080 Ti".to_owned(), 4352);
    push_entry(&mut v, "GeForce RTX 2080 SUPER".to_owned(), 3072);
    push_entry(&mut v, "GeForce RTX 2080".to_owned(), 2944);
    push_entry(&mut v, "GeForce RTX 2070 SUPER".to_owned(), 2560);
    push_entry(&mut v, "GeForce GTX 1080 Ti".to_owned(), 3584);
    push_entry(&mut v, "GeForce GTX 1080".to_owned(), 2560);
    push_entry(&mut v, "GeForce GTX 2060".to_owned(), 1920);
    push_entry(&mut v, "GeForce GTX 1660 Ti".to_owned(), 1536);
    push_entry(&mut v, "GeForce GTX 1060".to_owned(), 1280);
    push_entry(&mut v, "GeForce GTX 1650 SUPER".to_owned(), 1280);
    push_entry(&mut v, "GeForce GTX 1650".to_owned(), 896);
    assert(entries_view(v@) =~= builtin_entries());
    v
}

impl CoreCounts {
    /// The table of built-in core counts.
    pub fn builtin() -> (r: CoreCounts)
        ensures
            r@ == table_of(builtin_entries()),
    {
        CoreCounts { entries: builtin_list() }
    }

    /// The built-in table with the entries of an optional override list
    /// (`name:cores`, comma-separated) laid over it in order. A malformed list
    /// is refused as a whole.
    pub fn new(custom: Option<&str>) -> (r: Result<CoreCounts, GpuError>)
        ensures
            match custom {
                None => r matches Ok(t) && t@ == table_of(builtin_entries()),
                Some(s) => match parse_overrides(s@) {
                    Some(es) => r matches Ok(t) && t@ == table_of(builtin_entries() + es),
                    None => r == Err::<CoreCounts, GpuError>(GpuError::InvalidCustomGpu),
                },
            },
    {
        let mut table = CoreCounts { entries: builtin_list() };
        match custom {
            None => Ok(table),
            Some(s) => {
                let overrides = parse_custom_gpus(s)?;
                let ghost es = entries_view(overrides@);
                let ghost base = entries_view(table.entries@);
                assert(base =~= builtin_entries());
                let mut i: usize = 0;
                while i < overrides.len()
                    invariant
                        i <= overrides.len(),
                        es == entries_view(overrides@),
                        base == builtin_entries(),
                        entries_view(table.entries@) == base + es.take(i as int),
                    decreases overrides.len() - i,
                {
                    let name = overrides[i].0.clone();
                    push_entry(&mut table.entries, name, overrides[i].1);
                    assert(base + es.take(i + 1) =~= (base + es.take(i as int)).push(es[i as int]));
                    i = i + 1;
                }
                assert(es.take(i as int) =~= es);
                Ok(table)
            },
        }
    }

    /// The core count that the table holds for `name`, if any.
    pub fn lookup(&self, name: &str) -> (r: Option<usize>)
        ensures
            r == (if self@.contains_key(name@) {
                Some(self@[name@])
            } else {
                None
            }),
    {
        let ghost es = entries_view(self.entries@);
        let wanted = name.to_owned();
        let mut i: usize = self.entries.len();
        assert(es.take(i as int) =~= es);
        while i > 0
            invariant
                i <= self.entries.len(),
                es == entries_view(self.entries@),
                wanted@ == name@,
                last_count(es, name@) == last_count(es.take(i as int), name@),
            decreases i,
        {
            assert(es.take(i as int).drop_last() =~= es.take(i - 1));
            if self.entries[i - 1].0 == wanted {
                return Some(self.entries[i - 1].1);
            }
            i = i - 1;
        }
        None
    }

    /// The core count for `name`: the table's, else the default.
    pub fn core_count(&self, name: &str) -> (r: usize)
        ensures
            r == (if self@.contains_key(name@) {
                self@[name@]
            } else {
                DEFAULT_CORE_COUNT
            }),
    {
        match self.lookup(name) {
            Some(cores) => cores,
            None => DEFAULT_CORE_COUNT,
        }
    }
}

/// The core count of a device from its reported name; a failed name query is
/// handed on.
pub fn get_core_count(
    table: &CoreCounts,
    device_name: Result<String, GpuError>,
) -> (r: Result<usize, GpuError>)
    ensures
        match device_name {
            Ok(n) => r == Ok::<usize, GpuError>(
                if table@.contains_key(n@) {
                    table@[n@]
                } else {
                    DEFAULT_CORE_COUNT
                },
            ),
            Err(e) => r == Err::<usize, GpuError>(e),
        },
{
    match device_name {
        Ok(n) => Ok(table.core_count(n.as_str())),
        Err(e) => Err(e),
    }
}

} // verus!
