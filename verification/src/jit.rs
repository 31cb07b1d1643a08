//! The just-in-time backend: encodes an operation sequence as x86-64
//! machine code, byte by byte, into a page-sized code buffer.
//!
//! The buffer here is plain memory with a write cursor and a two-state
//! protection machine (writable, then irreversibly executable). Mapping the
//! finished page executable and calling into it are native-boundary
//! concerns and live outside the verified library; the encoding itself —
//! the calling-convention prologue and epilogue, the per-operation
//! instruction bytes, and the backpatched loop displacements — is specified
//! here down to the byte.

use crate::parser::{parse_from, spec_parse, Ops};
use crate::text::push_char;
use vstd::prelude::*;
use vstd::slice::slice_to_vec;

verus! {

/// Size in bytes of one page of code memory.
pub const PAGESIZE: usize = 4096;

/// The caller-supplied output channel passed into generated code: a byte
/// buffer that the generated routine fills through its output cursor.
#[derive(Debug)]
pub struct Context {
    output: Vec<u8>,
}

impl View for Context {
    type V = Seq<u8>;

    closed spec fn view(&self) -> Seq<u8> {
        self.output@
    }
}

impl Context {
    /// A fresh context whose output buffer holds `output_size` zero bytes.
    pub fn new(output_size: usize) -> (c: Context)
        ensures
            c@ == Seq::new(output_size as nat, |i: int| 0u8),
    {
        Context { output: zeroed_vec(output_size) }
    }

    /// One character per buffer byte, in order.
    pub fn to_string(&self) -> (s: String)
        ensures
            s@.len() == self@.len(),
            forall|i: int| 0 <= i < self@.len() ==> s@[i] == self@[i] as char,
    {
        let mut s = String::new();
        let mut i: usize = 0;
        while i < self.output.len()
            invariant
                i <= self@.len(),
                s@.len() == i,
                forall|j: int| 0 <= j < i ==> s@[j] == self@[j] as char,
            decreases self@.len() - i,
        {
            push_char(&mut s, self.output[i] as char);
            i = i + 1;
        }
        s
    }

    /// The output buffer.
    pub fn output(&self) -> (r: &Vec<u8>)
        ensures
            r@ == self@,
    {
        &self.output
    }
}

/// A vector of `n` zero bytes.
pub(crate) fn zeroed_vec(n: usize) -> (v: Vec<u8>)
    ensures
        v@ == Seq::new(n as nat, |i: int| 0u8),
{
    let mut v: Vec<u8> = Vec::new();
    let mut i: usize = 0;
    while i < n
        invariant
            i <= n,
            v@.len() == i,
            forall|j: int| 0 <= j < i ==> v@[j] == 0u8,
        decreases n - i,
    {
        v.push(0u8);
        i = i + 1;
    }
    proof {
        assert(v@ =~= Seq::new(n as nat, |i: int| 0u8));
    }
    v
}

// x86-64 instruction encoding, as byte sequences.

/// The instruction bytes for one operation outside loop control.
/// `OpenLoop` emits nothing; the bytes of `CloseLoop` depend on the loop
/// entry stack and are given by [`translate`].
pub open spec fn op_bytes(op: Ops) -> Seq<u8> {
    match op {
        Ops::IncrementPtr => seq![0x49u8, 0xff, 0xc0],  // inc r8
        Ops::DecrementPtr => seq![0x49u8, 0xff, 0xc8],  // dec r8
        Ops::Increment => seq![0x42u8, 0xfe, 0x04, 0x04],  // inc byte [rsp + r8]
        Ops::Decrement => seq![0x42u8, 0xfe, 0x0c, 0x04],  // dec byte [rsp + r8]
        // mov al, [rsp + r8]; mov [r9], al; inc r9
        Ops::PutChar => seq![0x42u8, 0x8a, 0x04, 0x04, 0x41, 0x88, 0x01, 0x49, 0xff, 0xc1],
        // input is unsupported by this backend: no instructions
        Ops::GetChar => Seq::empty(),
        Ops::OpenLoop => Seq::empty(),
        Ops::CloseLoop => Seq::empty(),
    }
}

/// cmp byte [rsp + r8], 0 followed by the opcode of jnz rel32; the four
/// displacement bytes follow separately.
pub open spec fn cmp_jnz_prefix() -> Seq<u8> {
    seq![0x42u8, 0x80, 0x3c, 0x04, 0x00, 0x0f, 0x85]
}

/// The four little-endian bytes of `n`.
pub open spec fn le32(n: int) -> Seq<u8>
    recommends
        0 <= n < 0x1_0000_0000,
{
    seq![
        (n % 256) as u8,
        ((n / 256) % 256) as u8,
        ((n / 65536) % 256) as u8,
        ((n / 16777216) % 256) as u8,
    ]
}

/// The two's-complement encoding of the backward jump displacement
/// `-delta`.
pub open spec fn neg_disp(delta: int) -> Seq<u8>
    recommends
        1 <= delta < 0x8000_0000,
{
    le32(0x1_0000_0000 - delta)
}

/// Whether every `CloseLoop` in `ops` has a matching earlier `OpenLoop`,
/// starting from `depth` loops already open. The assembler's loop entry
/// stack never underflows exactly when this holds of the whole sequence
/// with `depth` zero.
pub open spec fn closes_matched(ops: Seq<Ops>, depth: nat) -> bool
    decreases ops.len(),
{
    if ops.len() == 0 {
        true
    } else {
        match ops[0] {
            Ops::OpenLoop => closes_matched(ops.drop_first(), depth + 1),
            Ops::CloseLoop => depth > 0 && closes_matched(ops.drop_first(), (depth - 1) as nat),
            _ => closes_matched(ops.drop_first(), depth),
        }
    }
}

proof fn lemma_parse_from_closes(s: Seq<char>, i: int, depth: nat)
    requires
        0 <= i,
        parse_from(s, i, depth) is Ok,
    ensures
        closes_matched(parse_from(s, i, depth)->Ok_0, depth),
    decreases s.len() - i,
{
    if i >= s.len() {
    } else {
        let c = s[i];
        if c == ']' {
            lemma_parse_from_closes(s, i + 1, (depth - 1) as nat);
            let rest = parse_from(s, i + 1, (depth - 1) as nat)->Ok_0;
            assert((seq![Ops::CloseLoop] + rest).drop_first() =~= rest);
        } else if c == '[' {
            lemma_parse_from_closes(s, i + 1, depth + 1);
            let rest = parse_from(s, i + 1, depth + 1)->Ok_0;
            assert((seq![Ops::OpenLoop] + rest).drop_first() =~= rest);
        } else if crate::parser::is_bf_char(c) {
            lemma_parse_from_closes(s, i + 1, depth);
            let rest = parse_from(s, i + 1, depth)->Ok_0;
            assert((seq![crate::parser::char_op(c)] + rest).drop_first() =~= rest);
        } else {
            lemma_parse_from_closes(s, i + 1, depth);
        }
    }
}

/// In an operation sequence produced by a successful parse, every loop
/// close has its matching earlier open: assembling such a sequence never
/// pops an empty loop entry stack, so that internal fault is unreachable
/// for parsed programs.
pub proof fn lemma_parsed_closes_matched(s: Seq<char>)
    requires
        spec_parse(s) is Ok,
    ensures
        closes_matched(spec_parse(s)->Ok_0, 0),
{
    lemma_parse_from_closes(s, 0, 0);
}

/// The body bytes for `ops`, emitted starting at buffer position `pos`
/// with `stack` holding the positions recorded at open loops. Each
/// `CloseLoop` tests the current cell and jumps back to the position
/// recorded at its matching `OpenLoop`: the displacement is the negative
/// distance from the end of the displacement field (eleven bytes past the
/// start of the close's own code) back to that entry.
pub open spec fn translate(ops: Seq<Ops>, pos: int, stack: Seq<int>) -> Seq<u8>
    decreases ops.len(),
{
    if ops.len() == 0 {
        Seq::empty()
    } else {
        let rest = ops.drop_first();
        match ops[0] {
            Ops::OpenLoop => translate(rest, pos, stack.push(pos)),
            Ops::CloseLoop => {
                let entry = if stack.len() > 0 {
                    stack.last()
                } else {
                    0
                };
                let tail = if stack.len() > 0 {
                    stack.drop_last()
                } else {
                    stack
                };
                (cmp_jnz_prefix() + neg_disp(pos + 11 - entry)) + translate(rest, pos + 11, tail)
            },
            _ => op_bytes(ops[0]) + translate(rest, pos + op_bytes(ops[0]).len(), stack),
        }
    }
}

/// The System V prologue: set up the frame, zero rax, push four zeroed
/// quadwords as the 32-byte cell scratch region, zero the cell pointer r8,
/// and load the output cursor r9 from the context argument.
pub open spec fn prologue_bytes() -> Seq<u8> {
    seq![
        0x55u8,  // push rbp
        0x48, 0x89, 0xec,  // mov frame register
        0x48, 0x31, 0xc0,  // xor rax, rax
        0x50, 0x50, 0x50, 0x50,  // push rax, four times
        0x4d, 0x31, 0xc0,  // xor r8, r8
        0x4c, 0x8b, 0x0e,  // mov r9, [rsi]
    ]
}

/// The epilogue: free the scratch region and restore the frame.
pub open spec fn epilogue_bytes() -> Seq<u8> {
    seq![
        0x48u8, 0x83, 0xc4, 0x20,  // add rsp, 32
        0x48, 0x89, 0xe5,  // mov frame register back
        0x5du8,  // pop rbp
    ]
}

/// The complete routine for `ops` when assembly starts at buffer position
/// `pos`: prologue, translated body, epilogue, ret.
pub open spec fn assembly_bytes(ops: Seq<Ops>, pos: int) -> Seq<u8> {
    ((prologue_bytes() + translate(ops, pos + 17, Seq::empty())) + epilogue_bytes()).push(0xc3)
}

/// The integer values of a stack of recorded buffer positions.
pub open spec fn stack_ints(v: Seq<usize>) -> Seq<int> {
    v.map_values(|x: usize| x as int)
}

/// Protection state of the code buffer's memory region.
pub enum Protection {
    ReadWrite,
    Executable,
}

/// A fixed-capacity, page-sized code buffer with a write cursor and a
/// two-state protection machine. Appending is allowed only while writable;
/// the transition to executable is irreversible.
pub struct JITBuffer {
    addr: Vec<u8>,
    offset: usize,
    prot: Protection,
}

impl JITBuffer {
    /// The full contents of the buffer's memory region.
    pub closed spec fn image(&self) -> Seq<u8> {
        self.addr@
    }

    /// The write cursor: the number of bytes emitted so far.
    pub closed spec fn cursor(&self) -> nat {
        self.offset as nat
    }

    /// Whether the region is still writable.
    pub closed spec fn writable(&self) -> bool {
        self.prot is ReadWrite
    }

    /// The bytes emitted so far.
    pub open spec fn emitted(&self) -> Seq<u8> {
        self.image().take(self.cursor() as int)
    }

    /// The cursor is in bounds and everything past it is still zero.
    pub open spec fn wf(&self) -> bool {
        &&& self.cursor() <= self.image().len()
        &&& forall|j: int| self.cursor() <= j < self.image().len() ==> self.image()[j] == 0u8
    }

    /// Room to append `n` more bytes.
    pub open spec fn can_append(&self, n: int) -> bool {
        &&& self.wf()
        &&& self.writable()
        &&& self.cursor() + n <= self.image().len()
    }

    /// `post` is `pre` with exactly `bytes` appended at the cursor.
    pub open spec fn appended(pre: JITBuffer, post: JITBuffer, bytes: Seq<u8>) -> bool {
        &&& post.wf()
        &&& post.writable()
        &&& post.image().len() == pre.image().len()
        &&& post.cursor() == pre.cursor() + bytes.len()
        &&& post.emitted() == pre.emitted() + bytes
    }

    /// A writable, zero-filled buffer of `pages` pages.
    pub fn new(pages: usize) -> (r: JITBuffer)
        requires
            pages * PAGESIZE <= usize::MAX,
        ensures
            r.wf(),
            r.writable(),
            r.cursor() == 0,
            r.image().len() == pages * PAGESIZE,
            r.emitted() == Seq::<u8>::empty(),
    {
        let len: usize = pages * PAGESIZE;
        let buf = JITBuffer { addr: zeroed_vec(len), offset: 0, prot: Protection::ReadWrite };
        proof {
            assert(buf.emitted() =~= Seq::<u8>::empty());
        }
        buf
    }

    fn impl_push_u8(&mut self, value: u8)
        requires
            old(self).can_append(1),
        ensures
            JITBuffer::appended(*old(self), *final(self), seq![value]),
    {
        let n = self.addr.len();
        assert(self.offset < n);
        self.addr[self.offset] = value;
        self.offset = self.offset + 1;
        proof {
            assert(self.emitted() =~= old(self).emitted() + seq![value]);
        }
    }

    fn push_u8(&mut self, value: u8)
        requires
            old(self).can_append(1),
        ensures
            JITBuffer::appended(*old(self), *final(self), seq![value]),
    {
        self.impl_push_u8(value)
    }

    /// The position of the next write, relative to the buffer start.
    /// Displacements are differences of such positions, so they equal the
    /// differences of the underlying absolute addresses.
    fn current_addr(&self) -> (r: usize)
        requires
            self.wf(),
            self.cursor() < self.image().len(),
        ensures
            r == self.cursor(),
    {
        assert(self.offset < self.addr.len());
        self.offset
    }

    fn push_bytes(&mut self, values: &[u8])
        requires
            old(self).can_append(values@.len() as int),
        ensures
            JITBuffer::appended(*old(self), *final(self), values@),
    {
        let mut j: usize = 0;
        while j < values.len()
            invariant
                j <= values@.len(),
                old(self).can_append(values@.len() as int),
                JITBuffer::appended(*old(self), *self, values@.take(j as int)),
            decreases values@.len() - j,
        {
            let v = values[j];
            self.push_u8(v);
            proof {
                assert(self.emitted() =~= old(self).emitted() + values@.take(j as int + 1));
            }
            j = j + 1;
        }
        proof {
            assert(values@.take(values@.len() as int) =~= values@);
        }
    }

    /// Marks the region executable; after this no byte can be appended.
    /// The actual page-protection change belongs to the native boundary
    /// that maps the finished image; here the state machine enforces that
    /// the transition happens at most once and forbids later writes.
    pub fn map_executable(&mut self)
        ensures
            final(self).image() == old(self).image(),
            final(self).cursor() == old(self).cursor(),
            !final(self).writable(),
    {
        match self.prot {
            Protection::Executable => (),
            Protection::ReadWrite => {
                self.prot = Protection::Executable;
            },
        }
    }

    /// The whole memory region: the emitted code followed by the untouched
    /// zero bytes of the page.
    pub fn bytes(&self) -> (r: &[u8])
        ensures
            r@ == self.image(),
    {
        self.addr.as_slice()
    }

    /// Emits the instruction bytes of one operation outside loop control.
    fn push_op(&mut self, op: Ops)
        requires
            old(self).can_append(op_bytes(op).len() as int),
            !(op is OpenLoop),
            !(op is CloseLoop),
        ensures
            JITBuffer::appended(*old(self), *final(self), op_bytes(op)),
    {
        match op {
            Ops::IncrementPtr => {
                self.push_bytes(&[0x49, 0xff, 0xc0]);
            },
            Ops::DecrementPtr => {
                self.push_bytes(&[0x49, 0xff, 0xc8]);
            },
            Ops::Increment => {
                self.push_bytes(&[0x42, 0xfe, 0x04, 0x04]);
            },
            Ops::Decrement => {
                self.push_bytes(&[0x42, 0xfe, 0x0c, 0x04]);
            },
            Ops::PutChar => {
                self.push_bytes(&[0x42, 0x8a, 0x04, 0x04, 0x41, 0x88, 0x01, 0x49, 0xff, 0xc1]);
            },
            _ => {
                proof {
                    assert(self.emitted() =~= old(self).emitted() + op_bytes(op));
                }
            },
        }
    }

    fn mov_r9_rsi(&mut self)
        requires
            old(self).can_append(3),
        ensures
            JITBuffer::appended(*old(self), *final(self), seq![0x4cu8, 0x8b, 0x0e]),
    {
        self.push_bytes(&[0x4c, 0x8b, 0x0e]);
    }

    fn xor_r8_r8(&mut self)
        requires
            old(self).can_append(3),
        ensures
            JITBuffer::appended(*old(self), *final(self), seq![0x4du8, 0x31, 0xc0]),
    {
        self.push_bytes(&[0x4d, 0x31, 0xc0]);
    }

    fn ret(&mut self)
        requires
            old(self).can_append(1),
        ensures
            JITBuffer::appended(*old(self), *final(self), seq![0xc3u8]),
    {
        self.push_u8(0xc3);
    }

    fn add_rsp_32(&mut self)
        requires
            old(self).can_append(4),
        ensures
            JITBuffer::appended(*old(self), *final(self), seq![0x48u8, 0x83, 0xc4, 0x20]),
    {
        self.push_bytes(&[0x48, 0x83, 0xc4, 0x20]);
    }

    /// Pushes rax four times: 32 stack bytes, already zeroed through rax.
    fn sub_rsp_32(&mut self)
        requires
            old(self).can_append(4),
        ensures
            JITBuffer::appended(*old(self), *final(self), seq![0x50u8, 0x50, 0x50, 0x50]),
    {
        self.push_bytes(&[0x50, 0x50, 0x50, 0x50]);
    }

    fn xor_rax_rax(&mut self)
        requires
            old(self).can_append(3),
        ensures
            JITBuffer::appended(*old(self), *final(self), seq![0x48u8, 0x31, 0xc0]),
    {
        self.push_bytes(&[0x48, 0x31, 0xc0]);
    }

    fn pop_rbp(&mut self)
        requires
            old(self).can_append(1),
        ensures
            JITBuffer::appended(*old(self), *final(self), seq![0x5du8]),
    {
        self.push_u8(0x5d);
    }

    fn push_rbp(&mut self)
        requires
            old(self).can_append(1),
        ensures
            JITBuffer::appended(*old(self), *final(self), seq![0x55u8]),
    {
        self.push_u8(0x55);
    }

    fn mov_rsp_rbp(&mut self)
        requires
            old(self).can_append(3),
        ensures
            JITBuffer::appended(*old(self), *final(self), seq![0x48u8, 0x89, 0xe5]),
    {
        self.push_bytes(&[0x48, 0x89, 0xe5]);
    }

    fn mov_rbp_rsp(&mut self)
        requires
            old(self).can_append(3),
        ensures
            JITBuffer::appended(*old(self), *final(self), seq![0x48u8, 0x89, 0xec]),
    {
        self.push_bytes(&[0x48, 0x89, 0xec]);
    }

    fn prologue(&mut self)
        requires
            old(self).can_append(17),
        ensures
            JITBuffer::appended(*old(self), *final(self), prologue_bytes()),
    {
        self.push_rbp();
        self.mov_rbp_rsp();
        self.xor_rax_rax();
        self.sub_rsp_32();
        self.xor_r8_r8();
        self.mov_r9_rsi();
        proof {
            assert(self.emitted() =~= old(self).emitted() + prologue_bytes());
        }
    }

    fn epilogue(&mut self)
        requires
            old(self).can_append(8),
        ensures
            JITBuffer::appended(*old(self), *final(self), epilogue_bytes()),
    {
        self.add_rsp_32();
        self.mov_rsp_rbp();
        self.pop_rbp();
        proof {
            assert(self.emitted() =~= old(self).emitted() + epilogue_bytes());
        }
    }

    /// Translates the operation sequence into body code at the cursor.
    /// Open loops record the current position; each close emits the cell
    /// test and the backward jump to its matching open.
    fn binary_translation(&mut self, ops: &[Ops])
        requires
            old(self).wf(),
            old(self).writable(),
            closes_matched(ops@, 0),
            old(self).cursor() + translate(
                ops@,
                old(self).cursor() as int,
                Seq::empty(),
            ).len() < old(self).image().len(),
            old(self).image().len() <= 0x4000_0000,
        ensures
            JITBuffer::appended(
                *old(self),
                *final(self),
                translate(ops@, old(self).cursor() as int, Seq::empty()),
            ),
    {
        let ghost whole = translate(ops@, old(self).cursor() as int, Seq::<int>::empty());
        let mut loop_entry: Vec<usize> = Vec::new();
        let mut i: usize = 0;
        proof {
            assert(ops@.skip(0) =~= ops@);
            assert(stack_ints(loop_entry@) =~= Seq::<int>::empty());
            assert(old(self).emitted() + whole =~= self.emitted() + translate(
                ops@.skip(0),
                self.cursor() as int,
                stack_ints(loop_entry@),
            ));
        }
        while i < ops.len()
            invariant
                i <= ops@.len(),
                self.wf(),
                self.writable(),
                self.image().len() == old(self).image().len(),
                self.image().len() <= 0x4000_0000,
                closes_matched(ops@.skip(i as int), loop_entry@.len() as nat),
                forall|j: int|
                    0 <= j < loop_entry@.len() ==> #[trigger] loop_entry@[j] <= self.cursor(),
                old(self).emitted() + whole == self.emitted() + translate(
                    ops@.skip(i as int),
                    self.cursor() as int,
                    stack_ints(loop_entry@),
                ),
                self.cursor() + translate(
                    ops@.skip(i as int),
                    self.cursor() as int,
                    stack_ints(loop_entry@),
                ).len() < self.image().len(),
            decreases ops@.len() - i,
        {
            let ghost pre = *self;
            let ghost rest0 = ops@.skip(i as int);
            let ghost pos0 = self.cursor() as int;
            let ghost st0 = stack_ints(loop_entry@);
            proof {
                assert(rest0.len() > 0);
                assert(rest0[0] == ops@[i as int]);
                assert(rest0.drop_first() =~= ops@.skip(i as int + 1));
            }
            let o = ops[i];
            match o {
                Ops::OpenLoop => {
                    let a = self.current_addr();
                    loop_entry.push(a);
                    proof {
                        assert(stack_ints(loop_entry@) =~= st0.push(pos0));
                    }
                },
                Ops::CloseLoop => {
                    proof {
                        assert(loop_entry@.len() > 0);
                        assert(translate(rest0, pos0, st0) == (cmp_jnz_prefix() + neg_disp(
                            pos0 + 11 - st0.last(),
                        )) + translate(rest0.drop_first(), pos0 + 11, st0.drop_last()));
                    }
                    self.push_bytes(&[0x42, 0x80, 0x3c, 0x04, 0x00]);
                    self.push_bytes(&[0x0f, 0x85]);
                    let entry: usize = match loop_entry.pop() {
                        Some(e) => e,
                        None => {
                            proof {
                                assert(false);
                            }
                            0
                        },
                    };
                    let current = self.current_addr();
                    let offset_val: usize = (current + 4) - entry;
                    let disp: u32 = (0x1_0000_0000u64 - offset_val as u64) as u32;
                    let b0: u8 = (disp % 256) as u8;
                    let b1: u8 = ((disp / 256) % 256) as u8;
                    let b2: u8 = ((disp / 65536) % 256) as u8;
                    let b3: u8 = ((disp / 16777216) % 256) as u8;
                    proof {
                        assert(disp == 0x1_0000_0000 - (pos0 + 11 - st0.last()));
                        assert(seq![b0, b1, b2, b3] =~= neg_disp(pos0 + 11 - st0.last()));
                        assert(stack_ints(loop_entry@) =~= st0.drop_last());
                    }
                    self.push_bytes(&[b0, b1, b2, b3]);
                    proof {
                        assert(self.emitted() =~= pre.emitted() + ((cmp_jnz_prefix() + neg_disp(
                            pos0 + 11 - st0.last(),
                        ))));
                    }
                },
                _ => {
                    proof {
                        assert(translate(rest0, pos0, st0) == op_bytes(rest0[0]) + translate(
                            rest0.drop_first(),
                            pos0 + op_bytes(rest0[0]).len(),
                            st0,
                        ));
                    }
                    self.push_op(o);
                },
            }
            proof {
                assert(old(self).emitted() + whole =~= self.emitted() + translate(
                    ops@.skip(i as int + 1),
                    self.cursor() as int,
                    stack_ints(loop_entry@),
                ));
            }
            i = i + 1;
        }
        proof {
            assert(ops@.skip(ops@.len() as int) =~= Seq::<Ops>::empty());
            assert(self.emitted() + translate(
                Seq::<Ops>::empty(),
                self.cursor() as int,
                stack_ints(loop_entry@),
            ) =~= self.emitted());
            assert(self.emitted().len() == self.cursor());
            assert(old(self).emitted().len() == old(self).cursor());
        }
    }

    /// Assembles the complete routine for `ops` at the cursor: prologue,
    /// translated body, epilogue, ret.
    pub fn assemble(&mut self, ops: &Vec<Ops>)
        requires
            old(self).wf(),
            old(self).writable(),
            closes_matched(ops@, 0),
            old(self).cursor() + assembly_bytes(ops@, old(self).cursor() as int).len() <= old(
                self,
            ).image().len(),
            old(self).image().len() <= 0x4000_0000,
        ensures
            JITBuffer::appended(
                *old(self),
                *final(self),
                assembly_bytes(ops@, old(self).cursor() as int),
            ),
    {
        self.prologue();
        self.binary_translation(ops.as_slice());
        self.epilogue();
        self.ret();
        proof {
            assert(self.emitted() =~= old(self).emitted() + assembly_bytes(
                ops@,
                old(self).cursor() as int,
            ));
        }
    }
}

/// Encodes `input` as a complete native routine in a fresh one-page
/// buffer and returns the page image: the routine's bytes followed by
/// zeros up to the page size.
pub fn jit_compile_to_bytes(input: &Vec<Ops>) -> (r: Vec<u8>)
    requires
        closes_matched(input@, 0),
        assembly_bytes(input@, 0).len() <= PAGESIZE,
    ensures
        r@.len() == PAGESIZE,
        r@ == assembly_bytes(input@, 0) + Seq::new(
            (PAGESIZE - assembly_bytes(input@, 0).len()) as nat,
            |i: int| 0u8,
        ),
{
    let mut buffer = JITBuffer::new(1);
    buffer.assemble(input);
    let b = slice_to_vec(buffer.bytes());
    proof {
        assert(buffer.emitted() =~= assembly_bytes(input@, 0));
        assert(b@ =~= assembly_bytes(input@, 0) + Seq::new(
            (PAGESIZE - assembly_bytes(input@, 0).len()) as nat,
            |i: int| 0u8,
        ));
    }
    b
}

} // verus!
