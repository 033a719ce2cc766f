//! Limits on what a program may use: which of them a command sets, and what
//! is answered when a program asks for more.

use crate::command::RunCommand;
use crate::number::decimal;
use vstd::prelude::*;
use wasmtime::ResourceLimiter;

verus! {

/// How many instances, tables or memories there may be where the command
/// gives no number.
pub const DEFAULT_COUNT: usize = 10_000;

/// The limits that a command gives.
#[derive(Clone, Copy, Debug, PartialEq, Eq)]
pub struct GivenLimits {
    /// The most bytes of a memory.
    pub memory_size: Option<usize>,
    /// The most elements of a table.
    pub table_elements: Option<u32>,
    /// The most instances, tables and memories.
    pub instances: Option<usize>,
    pub tables: Option<usize>,
    pub memories: Option<usize>,
    /// Whether growth that is refused ends in a trap.
    pub trap_on_grow_failure: bool,
}

/// Limits in force.
#[derive(Clone, Copy, Debug, PartialEq, Eq)]
pub struct Limits {
    pub memory_size: Option<usize>,
    pub table_elements: Option<u32>,
    pub instances: usize,
    pub tables: usize,
    pub memories: usize,
    pub trap_on_grow_failure: bool,
}

/// The number given, or the default.
pub open spec fn count_or_default(given: Option<usize>) -> usize {
    match given {
        Some(max) => max,
        None => DEFAULT_COUNT,
    }
}

/// The limits that those of a command come to. A size that is not given is
/// not limited.
pub open spec fn in_force(given: GivenLimits) -> Limits {
    Limits {
        memory_size: given.memory_size,
        table_elements: given.table_elements,
        instances: count_or_default(given.instances),
        tables: count_or_default(given.tables),
        memories: count_or_default(given.memories),
        trap_on_grow_failure: given.trap_on_grow_failure,
    }
}

/// Limits of a store that are being put together.
#[verifier::external_type_specification]
#[verifier::external_body]
pub struct ExLimitsBuilder(wasmtime::StoreLimitsBuilder);

/// Limits of a store.
#[verifier::external_type_specification]
#[verifier::external_body]
pub struct ExLimitsOfStore(wasmtime::StoreLimits);

/// What has been put together.
pub uninterp spec fn planned(builder: wasmtime::StoreLimitsBuilder) -> Limits;

/// What the limits of a store are.
pub uninterp spec fn kept(limits: wasmtime::StoreLimits) -> Limits;

/// Calls `wasmtime::StoreLimitsBuilder::new`: no size is limited, there may
/// be 10,000 instances, tables and memories each, and refused growth is no
/// trap.
#[verifier::external_body]
fn start_limits() -> (r: wasmtime::StoreLimitsBuilder)
    ensures
        planned(r) == (Limits {
            memory_size: None,
            table_elements: None,
            instances: DEFAULT_COUNT,
            tables: DEFAULT_COUNT,
            memories: DEFAULT_COUNT,
            trap_on_grow_failure: false,
        }),
{
    wasmtime::StoreLimitsBuilder::new()
}

/// Calls `wasmtime::StoreLimitsBuilder::memory_size`: it sets the most bytes
/// of a memory and leaves the rest.
#[verifier::external_body]
fn limit_memory_size(
    builder: wasmtime::StoreLimitsBuilder,
    max: usize,
) -> (r: wasmtime::StoreLimitsBuilder)
    ensures
        planned(r) == (Limits { memory_size: Some(max), ..planned(builder) }),
{
    builder.memory_size(max)
}

/// Calls `wasmtime::StoreLimitsBuilder::table_elements`: it sets the most
/// elements of a table and leaves the rest.
#[verifier::external_body]
fn limit_table_elements(
    builder: wasmtime::StoreLimitsBuilder,
    max: u32,
) -> (r: wasmtime::StoreLimitsBuilder)
    ensures
        planned(r) == (Limits { table_elements: Some(max), ..planned(builder) }),
{
    builder.table_elements(max)
}

/// Calls `wasmtime::StoreLimitsBuilder::instances`: it sets the most
/// instances and leaves the rest.
#[verifier::external_body]
fn limit_instances(
    builder: wasmtime::StoreLimitsBuilder,
    max: usize,
) -> (r: wasmtime::StoreLimitsBuilder)
    ensures
        planned(r) == (Limits { instances: max, ..planned(builder) }),
{
    builder.instances(max)
}

/// Calls `wasmtime::StoreLimitsBuilder::tables`: it sets the most tables and
/// leaves the rest.
#[verifier::external_body]
fn limit_tables(
    builder: wasmtime::StoreLimitsBuilder,
    max: usize,
) -> (r: wasmtime::StoreLimitsBuilder)
    ensures
        planned(r) == (Limits { tables: max, ..planned(builder) }),
{
    builder.tables(max)
}

/// Calls `wasmtime::StoreLimitsBuilder::memories`: it sets the most memories
/// and leaves the rest.
#[verifier::external_body]
fn limit_memories(
    builder: wasmtime::StoreLimitsBuilder,
    max: usize,
) -> (r: wasmtime::StoreLimitsBuilder)
    ensures
        planned(r) == (Limits { memories: max, ..planned(builder) }),
{
    builder.memories(max)
}

/// Calls `wasmtime::StoreLimitsBuilder::trap_on_grow_failure`: it sets
/// whether refused growth is a trap and leaves the rest.
#[verifier::external_body]
fn trap_refused_growth(
    builder: wasmtime::StoreLimitsBuilder,
    trap: bool,
) -> (r: wasmtime::StoreLimitsBuilder)
    ensures
        planned(r) == (Limits { trap_on_grow_failure: trap, ..planned(builder) }),
{
    builder.trap_on_grow_failure(trap)
}

/// Calls `wasmtime::StoreLimitsBuilder::build`: the limits are what has been
/// put together.
#[verifier::external_body]
fn finish_limits(builder: wasmtime::StoreLimitsBuilder) -> (r: wasmtime::StoreLimits)
    ensures
        kept(r) == planned(builder),
{
    builder.build()
}

/// What is answered to a request to grow: whether it is granted, or the
/// message of a trap.
pub open spec fn growth_answer(
    fits: bool,
    trap: bool,
    message: Seq<char>,
) -> Result<bool, Seq<char>> {
    if fits {
        Ok(true)
    } else if trap {
        Err(message)
    } else {
        Ok(false)
    }
}

/// An answer refuses growth, by a trap or without one.
pub open spec fn is_refusal(answer: Result<bool, Seq<char>>, trap: bool) -> bool {
    if trap {
        answer is Err
    } else {
        answer == Ok::<bool, Seq<char>>(false)
    }
}

/// What is answered where a memory is to grow to so many bytes, of which its
/// module allows no more than some.
pub open spec fn memory_answer(
    limits: Limits,
    desired: usize,
    maximum: Option<usize>,
) -> Result<bool, Seq<char>> {
    growth_answer(
        (limits.memory_size matches Some(max) ==> desired <= max) && (maximum matches Some(max)
            ==> desired <= max),
        limits.trap_on_grow_failure,
        "forcing trap when growing memory to "@ + decimal(desired as nat) + " bytes"@,
    )
}

/// What is answered where a table is to grow to so many elements, of which
/// its module allows no more than some.
pub open spec fn table_answer(
    limits: Limits,
    desired: u32,
    maximum: Option<u32>,
) -> Result<bool, Seq<char>> {
    growth_answer(
        (limits.table_elements matches Some(max) ==> desired <= max) && (maximum matches Some(max)
            ==> desired <= max),
        limits.trap_on_grow_failure,
        "forcing trap when growing table to "@ + decimal(desired as nat) + " elements"@,
    )
}

/// Calls `wasmtime::ResourceLimiter::memory_growing` of the limits: growth is
/// granted within the limit and what the module allows, and is refused
/// otherwise, by an error where refused growth is a trap. The error is given
/// as the text that its `Display` shows. The present size does not matter,
/// and the limits stay.
#[verifier::external_body]
fn ask_memory(
    limits: &mut wasmtime::StoreLimits,
    current: usize,
    desired: usize,
    maximum: Option<usize>,
) -> (r: Result<bool, String>)
    ensures
        kept(*final(limits)) == kept(*old(limits)),
        match r {
            Ok(granted) => memory_answer(kept(*old(limits)), desired, maximum) == Ok::<
                bool,
                Seq<char>,
            >(granted),
            Err(t) => memory_answer(kept(*old(limits)), desired, maximum) == Err::<
                bool,
                Seq<char>,
            >(t@),
        },
{
    limits.memory_growing(current, desired, maximum).map_err(|e| e.to_string())
}

/// Calls `wasmtime::ResourceLimiter::table_growing` of the limits, which
/// answers for a table as it does for a memory.
#[verifier::external_body]
fn ask_table(
    limits: &mut wasmtime::StoreLimits,
    current: u32,
    desired: u32,
    maximum: Option<u32>,
) -> (r: Result<bool, String>)
    ensures
        kept(*final(limits)) == kept(*old(limits)),
        match r {
            Ok(granted) => table_answer(kept(*old(limits)), desired, maximum) == Ok::<
                bool,
                Seq<char>,
            >(granted),
            Err(t) => table_answer(kept(*old(limits)), desired, maximum) == Err::<
                bool,
                Seq<char>,
            >(t@),
        },
{
    limits.table_growing(current, desired, maximum).map_err(|e| e.to_string())
}

/// Calls `wasmtime::ResourceLimiter::instances` of the limits: the most
/// instances.
#[verifier::external_body]
fn most_instances(limits: &wasmtime::StoreLimits) -> (r: usize)
    ensures
        r == kept(*limits).instances,
{
    limits.instances()
}

/// Calls `wasmtime::ResourceLimiter::tables` of the limits: the most tables.
#[verifier::external_body]
fn most_tables(limits: &wasmtime::StoreLimits) -> (r: usize)
    ensures
        r == kept(*limits).tables,
{
    limits.tables()
}

/// Calls `wasmtime::ResourceLimiter::memories` of the limits: the most
/// memories.
#[verifier::external_body]
fn most_memories(limits: &wasmtime::StoreLimits) -> (r: usize)
    ensures
        r == kept(*limits).memories,
{
    limits.memories()
}

/// How many instances, tables and memories there may be.
#[derive(Clone, Copy, Debug, PartialEq, Eq)]
pub struct Counts {
    pub instances: usize,
    pub tables: usize,
    pub memories: usize,
}

impl GivenLimits {
    /// The limits of a store. Only limits that are given are set.
    pub fn store_limits(&self) -> (r: wasmtime::StoreLimits)
        ensures
            kept(r) == in_force(*self),
    {
        let mut builder = start_limits();
        if let Some(max) = self.memory_size {
            builder = limit_memory_size(builder, max);
        }
        if let Some(max) = self.table_elements {
            builder = limit_table_elements(builder, max);
        }
        if let Some(max) = self.instances {
            builder = limit_instances(builder, max);
        }
        if let Some(max) = self.tables {
            builder = limit_tables(builder, max);
        }
        if let Some(max) = self.memories {
            builder = limit_memories(builder, max);
        }
        finish_limits(trap_refused_growth(builder, self.trap_on_grow_failure))
    }

    /// What the limits of a store answer where a memory is to grow. Growth
    /// beyond the given size is refused, and no memory that is limited only
    /// by its module is refused what the module allows it.
    pub fn memory_growing(
        &self,
        current: usize,
        desired: usize,
        maximum: Option<usize>,
    ) -> (r: Result<bool, String>)
        ensures
            match r {
                Ok(granted) => memory_answer(in_force(*self), desired, maximum) == Ok::<
                    bool,
                    Seq<char>,
                >(granted),
                Err(t) => memory_answer(in_force(*self), desired, maximum) == Err::<
                    bool,
                    Seq<char>,
                >(t@),
            },
    {
        let mut limits = self.store_limits();
        ask_memory(&mut limits, current, desired, maximum)
    }

    /// What the limits of a store answer where a table is to grow.
    pub fn table_growing(
        &self,
        current: u32,
        desired: u32,
        maximum: Option<u32>,
    ) -> (r: Result<bool, String>)
        ensures
            match r {
                Ok(granted) => table_answer(in_force(*self), desired, maximum) == Ok::<
                    bool,
                    Seq<char>,
                >(granted),
                Err(t) => table_answer(in_force(*self), desired, maximum) == Err::<
                    bool,
                    Seq<char>,
                >(t@),
            },
    {
        let mut limits = self.store_limits();
        ask_table(&mut limits, current, desired, maximum)
    }

    /// What the limits of a store say of how many instances, tables and
    /// memories there may be.
    pub fn counts(&self) -> (r: Counts)
        ensures
            r.instances == count_or_default(self.instances),
            r.tables == count_or_default(self.tables),
            r.memories == count_or_default(self.memories),
    {
        let limits = self.store_limits();
        Counts {
            instances: most_instances(&limits),
            tables: most_tables(&limits),
            memories: most_memories(&limits),
        }
    }
}

impl RunCommand {
    /// The limits that the command gives.
    pub open spec fn limits(&self) -> GivenLimits {
        GivenLimits {
            memory_size: self.max_memory_size,
            table_elements: self.max_table_elements,
            instances: self.max_instances,
            tables: self.max_tables,
            memories: self.max_memories,
            trap_on_grow_failure: self.trap_on_grow_failure,
        }
    }

    /// The limits that the command gives.
    pub fn given_limits(&self) -> (r: GivenLimits)
        ensures
            r == self.limits(),
    {
        GivenLimits {
            memory_size: self.max_memory_size,
            table_elements: self.max_table_elements,
            instances: self.max_instances,
            tables: self.max_tables,
            memories: self.max_memories,
            trap_on_grow_failure: self.trap_on_grow_failure,
        }
    }

    /// Growth is granted wherever it stays within the size that the command
    /// gives, if it gives one, and within what the module allows. Anything
    /// more is refused, by a trap that names the size where the command asks
    /// for traps, and without one otherwise.
    pub proof fn law_growth_within_the_limits_is_granted(
        &self,
        bytes: usize,
        most_bytes: Option<usize>,
        elements: u32,
        most_elements: Option<u32>,
    )
        ensures
            ({
                let within = (self.max_memory_size is None || bytes <= self.max_memory_size->0) && (
                most_bytes is None || bytes <= most_bytes->0);
                let answer = memory_answer(in_force(self.limits()), bytes, most_bytes);
                &&& within <==> answer == Ok::<bool, Seq<char>>(true)
                &&& !within && !self.trap_on_grow_failure ==> answer == Ok::<bool, Seq<char>>(false)
                &&& !within && self.trap_on_grow_failure ==> answer == Err::<bool, Seq<char>>(
                    "forcing trap when growing memory to "@ + decimal(bytes as nat) + " bytes"@,
                )
            }),
            ({
                let within = (self.max_table_elements is None || elements
                    <= self.max_table_elements->0) && (most_elements is None || elements
                    <= most_elements->0);
                let answer = table_answer(in_force(self.limits()), elements, most_elements);
                &&& within <==> answer == Ok::<bool, Seq<char>>(true)
                &&& !within && !self.trap_on_grow_failure ==> answer == Ok::<bool, Seq<char>>(false)
                &&& !within && self.trap_on_grow_failure ==> answer == Err::<bool, Seq<char>>(
                    "forcing trap when growing table to "@ + decimal(elements as nat)
                        + " elements"@,
                )
            }),
    {
    }

    /// There may be as many instances, tables and memories as the command
    /// gives, each number for itself, and ten thousand where it gives none.
    pub proof fn law_counts_are_the_given_ones(&self)
        ensures
            self.max_instances matches Some(max) ==> in_force(self.limits()).instances == max,
            self.max_instances is None ==> in_force(self.limits()).instances == 10_000,
            self.max_tables matches Some(max) ==> in_force(self.limits()).tables == max,
            self.max_tables is None ==> in_force(self.limits()).tables == 10_000,
            self.max_memories matches Some(max) ==> in_force(self.limits()).memories == max,
            self.max_memories is None ==> in_force(self.limits()).memories == 10_000,
    {
    }
}

} // verus!
