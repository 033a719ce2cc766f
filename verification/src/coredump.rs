//! Core dumps: the stack of a trap, written as a WebAssembly module.

use crate::error::{Problem, Reason, ReasonView};
use crate::plan::Frame;
use vstd::prelude::*;
use vstd::utf8::encode_utf8;

verus! {

/// The section of a core dump that names the program.
#[verifier::external_type_specification]
#[verifier::external_body]
pub struct ExCoreDumpSection(wasm_encoder::CoreDumpSection);

/// The section of a core dump that lists the frames of a thread.
#[verifier::external_type_specification]
#[verifier::external_body]
pub struct ExCoreDumpStackSection(wasm_encoder::CoreDumpStackSection);

/// A WebAssembly module that is being written.
#[verifier::external_type_specification]
#[verifier::external_body]
pub struct ExModule(wasm_encoder::Module);

/// The name that a section gives the program.
pub uninterp spec fn program_name(section: wasm_encoder::CoreDumpSection) -> Seq<char>;

/// The name of the thread of a stack.
pub uninterp spec fn thread_name(stack: wasm_encoder::CoreDumpStackSection) -> Seq<char>;

/// The frames of a stack: the index of the instance, that of the function,
/// and the offset in its code.
pub uninterp spec fn stack_frames(stack: wasm_encoder::CoreDumpStackSection) -> Seq<
    (u32, u32, u32),
>;

/// The bytes written so far.
pub uninterp spec fn module_bytes(module: wasm_encoder::Module) -> Seq<u8>;

/// A number as bytes of seven bits each, the lowest first; all but the last
/// have the highest bit set.
pub open spec fn leb128(n: nat) -> Seq<u8>
    decreases n,
{
    if n < 128 {
        seq![n as u8]
    } else {
        seq![(128 + n % 128) as u8] + leb128(n / 128)
    }
}

/// Bytes with their number in front.
pub open spec fn counted(bytes: Seq<u8>) -> Seq<u8> {
    leb128(bytes.len()) + bytes
}

/// What a custom section with a name holds, as bytes.
pub open spec fn custom_body(name: Seq<char>, data: Seq<u8>) -> Seq<u8> {
    counted(encode_utf8(name)) + data
}

/// A custom section of a module, as bytes.
pub open spec fn custom_section(body: Seq<u8>) -> Seq<u8> {
    seq![0x00u8] + counted(body)
}

/// What names a program, as bytes.
pub open spec fn program_body(name: Seq<char>) -> Seq<u8> {
    custom_body("core"@, seq![0x00u8] + counted(encode_utf8(name)))
}

/// A frame as bytes, without locals and without stack values.
pub open spec fn frame_bytes(frame: (u32, u32, u32)) -> Seq<u8> {
    seq![0x00u8] + leb128(frame.0 as nat) + leb128(frame.1 as nat) + leb128(frame.2 as nat) + seq![
        0x00u8,
        0x00u8,
    ]
}

/// Frames as bytes, one after the other.
pub open spec fn frames_bytes(frames: Seq<(u32, u32, u32)>) -> Seq<u8>
    decreases frames.len(),
{
    if frames.len() == 0 {
        Seq::empty()
    } else {
        frames_bytes(frames.drop_last()) + frame_bytes(frames.last())
    }
}

/// What lists the frames of a thread, as bytes.
pub open spec fn stack_body(thread: Seq<char>, frames: Seq<(u32, u32, u32)>) -> Seq<u8> {
    custom_body(
        "corestack"@,
        seq![0x00u8] + counted(encode_utf8(thread)) + leb128(frames.len()) + frames_bytes(frames),
    )
}

/// The bytes that a WebAssembly module starts with.
pub open spec fn module_header() -> Seq<u8> {
    seq![0x00u8, 0x61u8, 0x73u8, 0x6du8, 0x01u8, 0x00u8, 0x00u8, 0x00u8]
}

/// Calls `wasm_encoder::CoreDumpSection::new`, which keeps the name.
#[verifier::external_body]
fn new_program_section(name: &str) -> (r: wasm_encoder::CoreDumpSection)
    ensures
        program_name(r) == name@,
{
    wasm_encoder::CoreDumpSection::new(name)
}

/// Calls `wasm_encoder::CoreDumpStackSection::new`, which keeps the name and
/// starts without frames.
#[verifier::external_body]
fn new_stack_section(thread: &str) -> (r: wasm_encoder::CoreDumpStackSection)
    ensures
        thread_name(r) == thread@,
        stack_frames(r) == Seq::<(u32, u32, u32)>::empty(),
{
    wasm_encoder::CoreDumpStackSection::new(thread)
}

/// Calls `wasm_encoder::CoreDumpStackSection::frame` without locals and
/// without stack values, which adds a frame at the end. The section counts
/// its frames in a `u32`.
#[verifier::external_body]
fn push_frame(stack: &mut wasm_encoder::CoreDumpStackSection, instance: u32, function: u32, offset: u32)
    requires
        stack_frames(*old(stack)).len() < u32::MAX,
    ensures
        thread_name(*final(stack)) == thread_name(*old(stack)),
        stack_frames(*final(stack)) == stack_frames(*old(stack)).push((instance, function, offset)),
{
    stack.frame(instance, function, offset, [], []);
}

/// Calls `wasm_encoder::Module::new`, which writes the header of a module.
#[verifier::external_body]
fn new_module() -> (r: wasm_encoder::Module)
    ensures
        module_bytes(r) == module_header(),
{
    wasm_encoder::Module::new()
}

/// Calls `wasm_encoder::Module::section` with the section that names the
/// program, which adds it at the end as a custom section. The length of what
/// it holds is written as a `u32`.
#[verifier::external_body]
fn add_program_section(module: &mut wasm_encoder::Module, section: &wasm_encoder::CoreDumpSection)
    requires
        program_body(program_name(*section)).len() <= u32::MAX,
    ensures
        module_bytes(*final(module)) == module_bytes(*old(module)) + custom_section(
            program_body(program_name(*section)),
        ),
{
    module.section(section);
}

/// Calls `wasm_encoder::Module::section` with a stack, which adds it at the
/// end as a custom section. The length of what it holds is written as a
/// `u32`.
#[verifier::external_body]
fn add_stack_section(module: &mut wasm_encoder::Module, stack: &wasm_encoder::CoreDumpStackSection)
    requires
        stack_body(thread_name(*stack), stack_frames(*stack)).len() <= u32::MAX,
    ensures
        module_bytes(*final(module)) == module_bytes(*old(module)) + custom_section(
            stack_body(thread_name(*stack), stack_frames(*stack)),
        ),
{
    module.section(stack);
}

/// Calls `wasm_encoder::Module::as_slice` and copies the bytes written so
/// far.
#[verifier::external_body]
fn bytes_of_module(module: &wasm_encoder::Module) -> (r: Vec<u8>)
    ensures
        r@ == module_bytes(*module),
{
    module.as_slice().to_vec()
}

/// A frame as it is dumped: of the first instance, and at the start of the
/// function where the offset is not known.
pub open spec fn dumped_frame(frame: Frame) -> (u32, u32, u32) {
    (
        0,
        frame.func_index,
        match frame.func_offset {
            Some(offset) => offset as u32,
            None => 0,
        },
    )
}

/// The frames of a stack as they are dumped.
pub open spec fn dumped_frames(frames: Seq<Frame>) -> Seq<(u32, u32, u32)> {
    Seq::new(frames.len(), |i: int| dumped_frame(frames[i]))
}

/// A core dump: the name of the program and the stack of its main thread.
pub open spec fn coredump_of(source_name: Seq<char>, frames: Seq<Frame>) -> Seq<u8> {
    module_header() + custom_section(program_body(source_name)) + custom_section(
        stack_body("main"@, dumped_frames(frames)),
    )
}

/// A name and a stack fit in a core dump: the sections have lengths that can
/// be written, and so have the offsets.
pub open spec fn dumpable(source_name: Seq<char>, frames: Seq<Frame>) -> bool {
    &&& program_body(source_name).len() <= u32::MAX
    &&& stack_body("main"@, dumped_frames(frames)).len() <= u32::MAX
    &&& forall|i: int|
        0 <= i < frames.len() ==> ((#[trigger] frames[i]).func_offset matches Some(offset)
            ==> offset <= u32::MAX)
}

/// How many bytes a number takes.
fn leb128_size(n: u128) -> (r: u128)
    ensures
        r == leb128(n as nat).len(),
        1 <= r <= n + 1,
        n <= u32::MAX ==> r <= 5,
        n < 0x1000_0000 ==> r <= 4,
        n < 0x20_0000 ==> r <= 3,
        n < 0x4000 ==> r <= 2,
    decreases n,
{
    if n < 128 {
        1
    } else {
        1 + leb128_size(n / 128)
    }
}

/// The names in a core dump are short.
proof fn lemma_names_are_short()
    ensures
        encode_utf8("main"@).len() == 4,
        encode_utf8("core"@).len() == 4,
        encode_utf8("corestack"@).len() == 9,
{
    reveal_strlit("main");
    reveal_strlit("core");
    reveal_strlit("corestack");
    vstd::utf8::is_ascii_chars_encode_utf8("main"@);
    vstd::utf8::is_ascii_chars_encode_utf8("core"@);
    vstd::utf8::is_ascii_chars_encode_utf8("corestack"@);
}

/// A frame takes some bytes.
proof fn lemma_frames_take_bytes(frames: Seq<(u32, u32, u32)>)
    ensures
        frames.len() <= frames_bytes(frames).len(),
    decreases frames.len(),
{
    if frames.len() > 0 {
        lemma_frames_take_bytes(frames.drop_last());
    }
}

/// How many bytes frames take, where their offsets can be written.
fn frames_size(frames: &Vec<Frame>) -> (r: Option<u128>)
    ensures
        match r {
            Some(n) => {
                &&& n == frames_bytes(dumped_frames(frames@)).len()
                &&& n <= 18 * frames@.len()
                &&& forall|i: int|
                    0 <= i < frames@.len() ==> ((#[trigger] frames@[i]).func_offset matches Some(
                        offset,
                    ) ==> offset <= u32::MAX)
            },
            None => !forall|i: int|
                0 <= i < frames@.len() ==> ((#[trigger] frames@[i]).func_offset matches Some(offset)
                    ==> offset <= u32::MAX),
        },
{
    let mut total: u128 = 0;
    let mut i: usize = 0;
    assert(dumped_frames(frames@.take(0)) =~= Seq::<(u32, u32, u32)>::empty());
    while i < frames.len()
        invariant
            i <= frames@.len(),
            total == frames_bytes(dumped_frames(frames@.take(i as int))).len(),
            total <= 18 * i,
            forall|j: int|
                0 <= j < i ==> ((#[trigger] frames@[j]).func_offset matches Some(offset) ==> offset
                    <= u32::MAX),
        decreases frames@.len() - i,
    {
        let offset: usize = match frames[i].func_offset {
            Some(offset) => offset,
            None => 0,
        };
        if offset > 0xffff_ffff {
            assert(frames@[i as int].func_offset == Some(offset));
            return None;
        }
        let ghost before = dumped_frames(frames@.take(i as int));
        let ghost after = dumped_frames(frames@.take(i as int + 1));
        assert(after.drop_last() =~= before);
        assert(after.last() == dumped_frame(frames@[i as int]));
        let size: u128 = leb128_size(frames[i].func_index as u128) + leb128_size(offset as u128);
        total += 4 + size;
        i += 1;
    }
    assert(frames@.take(frames@.len() as int) =~= frames@);
    Some(total)
}

/// Whether a name and a stack fit in a core dump.
pub fn is_dumpable(source_name: &str, frames: &Vec<Frame>) -> (r: bool)
    ensures
        r == dumpable(source_name@, frames@),
{
    proof {
        lemma_names_are_short();
    }
    let name_length: u128 = source_name.as_bytes().len() as u128;
    let frame_count: u128 = frames.len() as u128;
    match frames_size(frames) {
        Some(n) => {
            let program: u128 = 6 + leb128_size(name_length) + name_length;
            let stack: u128 = 16 + leb128_size(frame_count) + n;
            program <= 0xffff_ffff && stack <= 0xffff_ffff
        },
        None => false,
    }
}

/// Writes the core dump of a failure whose stack is known.
pub fn generate_coredump(backtrace: &Option<Vec<Frame>>, source_name: &str) -> (r: Result<
    Vec<u8>,
    Reason,
>)
    requires
        backtrace matches Some(frames) ==> dumpable(source_name@, frames@),
    ensures
        match r {
            Ok(bytes) => {
                &&& backtrace matches Some(frames)
                &&& bytes@ == coredump_of(source_name@, frames@)
            },
            Err(e) => backtrace is None && e@ == ReasonView::NoBacktrace,
        },
{
    match backtrace {
        Some(frames) => Ok(encode_coredump(source_name, frames)),
        None => Err(Problem::NoBacktrace),
    }
}

/// Writes a core dump: the name of the program and the stack of its main
/// thread. Frames are not told apart by instance.
fn encode_coredump(source_name: &str, frames: &Vec<Frame>) -> (r: Vec<u8>)
    requires
        dumpable(source_name@, frames@),
    ensures
        r@ == coredump_of(source_name@, frames@),
{
    proof {
        lemma_frames_take_bytes(dumped_frames(frames@));
    }
    let coredump = new_program_section(source_name);
    let mut stack = new_stack_section("main");
    let mut i: usize = 0;
    assert(stack_frames(stack) =~= dumped_frames(frames@.take(0)));
    while i < frames.len()
        invariant
            i <= frames@.len(),
            dumpable(source_name@, frames@),
            frames@.len() <= u32::MAX,
            thread_name(stack) == "main"@,
            stack_frames(stack) == dumped_frames(frames@.take(i as int)),
        decreases frames@.len() - i,
    {
        let offset: u32 = match frames[i].func_offset {
            Some(offset) => offset as u32,
            None => 0,
        };
        push_frame(&mut stack, 0, frames[i].func_index, offset);
        i += 1;
        assert(stack_frames(stack) =~= dumped_frames(frames@.take(i as int)));
    }
    assert(frames@.take(frames@.len() as int) =~= frames@);
    let mut module = new_module();
    add_program_section(&mut module, &coredump);
    add_stack_section(&mut module, &stack);
    bytes_of_module(&module)
}

/// A core dump is a module with two sections: one that names the program, and
/// one with the stack of its main thread. The stack holds all frames in their
/// order, each with the index and the offset of its function, or the start of
/// it where the offset is not known, and all of the same instance.
pub proof fn law_dumps_hold_the_whole_stack(
    source_name: Seq<char>,
    frames: Seq<Frame>,
    stack: Seq<(u32, u32, u32)>,
)
    requires
        stack.len() == frames.len(),
        forall|i: int|
            0 <= i < frames.len() ==> {
                &&& (#[trigger] stack[i]).0 == 0
                &&& stack[i].1 == frames[i].func_index
                &&& frames[i].func_offset matches Some(offset) ==> stack[i].2 == offset as u32
                &&& frames[i].func_offset is None ==> stack[i].2 == 0
            },
    ensures
        coredump_of(source_name, frames) == seq![
            0x00u8,
            0x61u8,
            0x73u8,
            0x6du8,
            0x01u8,
            0x00u8,
            0x00u8,
            0x00u8,
        ] + custom_section(program_body(source_name)) + custom_section(stack_body("main"@, stack)),
{
    assert(dumped_frames(frames) =~= stack);
}

/// Names and stacks of ordinary size fit in a core dump: nothing is left out
/// but what takes more than four gigabytes, or lies beyond them.
pub proof fn law_ordinary_stacks_can_be_dumped(source_name: Seq<char>, frames: Seq<Frame>)
    requires
        encode_utf8(source_name).len() <= 0xffff_0000,
        frames.len() <= 0xd00_0000,
        forall|i: int|
            0 <= i < frames.len() ==> ((#[trigger] frames[i]).func_offset matches Some(offset)
                ==> offset <= u32::MAX),
    ensures
        dumpable(source_name, frames),
{
    lemma_names_are_short();
    lemma_leb128_size(encode_utf8(source_name).len());
    lemma_leb128_size(encode_utf8("core"@).len());
    lemma_leb128_size(encode_utf8("corestack"@).len());
    lemma_leb128_size(encode_utf8("main"@).len());
    lemma_leb128_size(frames.len());
    lemma_frames_size(dumped_frames(frames));
}

/// How many bytes a number takes at most.
proof fn lemma_leb128_size(n: nat)
    ensures
        n <= u32::MAX ==> leb128(n).len() <= 5,
        n < 128 ==> leb128(n).len() == 1,
{
    reveal_with_fuel(leb128, 6);
}

/// How many bytes frames take at most.
proof fn lemma_frames_size(frames: Seq<(u32, u32, u32)>)
    ensures
        frames_bytes(frames).len() <= 18 * frames.len(),
    decreases frames.len(),
{
    if frames.len() > 0 {
        let last = frames.last();
        lemma_frames_size(frames.drop_last());
        lemma_leb128_size(last.0 as nat);
        lemma_leb128_size(last.1 as nat);
        lemma_leb128_size(last.2 as nat);
    }
}

} // verus!
