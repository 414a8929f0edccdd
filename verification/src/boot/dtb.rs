//! Flattened device tree (FDT) parsing: header checks, the memory
//! reservation block and the structure block.
use vstd::prelude::*;
use vstd::string::*;
use vstd::utf8::valid_utf8;
use crate::align::{align_up, round_up, lemma_four_is_pow2};

verus! {

pub const FDT_MAGIC: u32 = 0xd00dfeed;
pub const FDT_BEGIN_NODE: u32 = 0x1;
pub const FDT_END_NODE: u32 = 0x2;
pub const FDT_PROP: u32 = 0x3;
pub const FDT_NOP: u32 = 0x4;
pub const FDT_END: u32 = 0x9;

/// Bytes in the FDT header (ten big-endian 32-bit fields).
pub const FDT_HEADER_SIZE: usize = 40;

/// The big-endian 32-bit word at `off`.
pub open spec fn be32(s: Seq<u8>, off: int) -> u32 {
    (s[off] * 0x100_0000 + s[off + 1] * 0x1_0000 + s[off + 2] * 0x100 + s[off + 3]) as u32
}

/// The big-endian 64-bit word at `off`.
pub open spec fn be64(s: Seq<u8>, off: int) -> u64 {
    (s[off] * 0x100_0000_0000_0000 + s[off + 1] * 0x1_0000_0000_0000 + s[off + 2]
        * 0x100_0000_0000 + s[off + 3] * 0x1_0000_0000 + s[off + 4] * 0x100_0000 + s[off + 5]
        * 0x1_0000 + s[off + 6] * 0x100 + s[off + 7]) as u64
}

/// Index of the first zero byte at or after `p`; `s.len()` when there is none.
pub open spec fn nul_from(s: Seq<u8>, p: int) -> int
    decreases s.len() - p,
{
    if p >= s.len() {
        s.len() as int
    } else if s[p] == 0 {
        p
    } else {
        nul_from(s, p + 1)
    }
}

/// The NUL-terminated UTF-8 string at `start`, without its terminator;
/// `None` where the start lies past the end, no NUL follows, or the bytes
/// are not UTF-8.
pub open spec fn cstr_at(s: Seq<u8>, start: int) -> Option<Seq<u8>> {
    if start > s.len() {
        None
    } else {
        let n = nul_from(s, start);
        if n < s.len() && valid_utf8(s.subrange(start, n)) {
            Some(s.subrange(start, n))
        } else {
            None
        }
    }
}

/// A structure-block token, with its payload as bytes.
pub enum TokenSpec {
    BeginNode(Seq<u8>),
    Prop { nameoff: u32, value: Seq<u8> },
    EndNode,
    Nop,
    End,
}

/// The outcome of reading one token at an offset: a failure, with the
/// offset the stream is left at; input on which the reader panics; or a
/// token and the offset after it.
pub enum StepSpec {
    Fail(int),
    Malformed,
    Token(TokenSpec, int),
}

/// Reading one structure-block token at `off`.
#[verifier::opaque]
pub open spec fn step(data: Seq<u8>, off: int) -> StepSpec {
    if off + 4 > data.len() {
        StepSpec::Fail(off)
    } else {
        let tag = be32(data, off);
        let p = off + 4;
        if tag == FDT_BEGIN_NODE {
            match cstr_at(data, p) {
                Some(name) => StepSpec::Token(TokenSpec::BeginNode(name), round_up(p + name.len() + 1, 4)),
                None => StepSpec::Malformed,
            }
        } else if tag == FDT_END_NODE {
            StepSpec::Token(TokenSpec::EndNode, p)
        } else if tag == FDT_PROP {
            if p + 4 > data.len() {
                StepSpec::Fail(p)
            } else if p + 8 > data.len() {
                StepSpec::Fail(p + 4)
            } else {
                let len = be32(data, p);
                let q = p + 8;
                if q + len > data.len() {
                    StepSpec::Malformed
                } else {
                    StepSpec::Token(
                        TokenSpec::Prop { nameoff: be32(data, p + 4), value: data.subrange(q, q + len) },
                        round_up(q + len, 4),
                    )
                }
            }
        } else if tag == FDT_NOP {
            StepSpec::Token(TokenSpec::Nop, round_up(p + 4, 4))
        } else if tag == FDT_END {
            StepSpec::Token(TokenSpec::End, p)
        } else {
            StepSpec::Fail(p)
        }
    }
}

/// The outcome of parsing nodes from an offset.
pub enum ScanSpec {
    Fail(int),
    Malformed,
    Done(int),
}

/// The first NUL at or after `p` lies between `p` and the end of the data,
/// and no byte before it is zero.
pub proof fn lemma_nul_from_bounds(s: Seq<u8>, p: int)
    requires
        0 <= p <= s.len(),
    ensures
        p <= nul_from(s, p) <= s.len(),
        nul_from(s, p) < s.len() ==> s[nul_from(s, p)] == 0,
        forall|i: int| p <= i < nul_from(s, p) ==> s[i] != 0,
    decreases s.len() - p,
{
    if p < s.len() && s[p] != 0 {
        lemma_nul_from_bounds(s, p + 1);
    }
}

/// A token read at `off` ends after `off` and at most 7 bytes past the data.
pub proof fn lemma_step_bounds(data: Seq<u8>, off: int)
    requires
        0 <= off,
    ensures
        step(data, off) matches StepSpec::Token(_, n) ==> off < n <= data.len() + 7,
        step(data, off) matches StepSpec::Fail(o) ==> off <= o,
{
    reveal(step);
    if off + 4 <= data.len() && be32(data, off) == FDT_BEGIN_NODE {
        lemma_nul_from_bounds(data, off + 4);
    }
}

/// Parsing a structure block from `off` with `depth` nodes open: a begin
/// token opens a node, a property needs its name in the strings block,
/// and an end-node, nop or end token closes the innermost node. Done when
/// no node is left open.
pub open spec fn scan(data: Seq<u8>, strings: int, off: int, depth: nat) -> ScanSpec
    decreases data.len() + 8 - off, depth,
    when 0 <= off
{
    if depth == 0 {
        ScanSpec::Done(off)
    } else {
        proof {
            lemma_step_bounds(data, off);
        }
        match step(data, off) {
            StepSpec::Fail(o) => ScanSpec::Fail(o),
            StepSpec::Malformed => ScanSpec::Malformed,
            StepSpec::Token(t, n) => match t {
                TokenSpec::BeginNode(_) => scan(data, strings, n, depth + 1),
                TokenSpec::Prop { nameoff, value: _ } => if cstr_at(data, strings + nameoff) is Some {
                    scan(data, strings, n, depth)
                } else {
                    ScanSpec::Malformed
                },
                _ => scan(data, strings, n, (depth - 1) as nat),
            },
        }
    }
}

/// Parsing with `k + d` nodes open is parsing with `k` open, then going on
/// with `d` open from where that stopped.
pub proof fn lemma_scan_nest(data: Seq<u8>, strings: int, off: int, k: nat, d: nat)
    requires
        0 <= off,
        k >= 1,
    ensures
        scan(data, strings, off, k + d) == (match scan(data, strings, off, k) {
            ScanSpec::Done(e) => scan(data, strings, e, d),
            other => other,
        }),
    decreases data.len() + 8 - off, k,
{
    lemma_step_bounds(data, off);
    match step(data, off) {
        StepSpec::Token(t, n) => match t {
            TokenSpec::BeginNode(_) => {
                lemma_scan_nest(data, strings, n, k + 1, d);
                assert(k + 1 + d == k + d + 1);
            },
            TokenSpec::Prop { nameoff, value: _ } => {
                if cstr_at(data, strings + nameoff) is Some {
                    lemma_scan_nest(data, strings, n, k, d);
                }
            },
            _ => {
                if k > 1 {
                    lemma_scan_nest(data, strings, n, (k - 1) as nat, d);
                    assert((k - 1) as nat + d == (k + d - 1) as nat);
                } else {
                    assert((k + d - 1) as nat == d);
                }
            },
        },
        _ => {},
    }
}

/// A parse with open nodes that completes ends after where it started and
/// at most 7 bytes past the data.
pub proof fn lemma_scan_done_bounds(data: Seq<u8>, strings: int, off: int, k: nat)
    requires
        0 <= off,
        k >= 1,
    ensures
        scan(data, strings, off, k) matches ScanSpec::Done(e) ==> off < e <= data.len() + 7,
        scan(data, strings, off, k) matches ScanSpec::Fail(o) ==> off <= o,
    decreases data.len() + 8 - off, k,
{
    lemma_step_bounds(data, off);
    match step(data, off) {
        StepSpec::Token(t, n) => match t {
            TokenSpec::BeginNode(_) => {
                lemma_scan_done_bounds(data, strings, n, k + 1);
            },
            TokenSpec::Prop { nameoff, value: _ } => {
                if cstr_at(data, strings + nameoff) is Some {
                    lemma_scan_done_bounds(data, strings, n, k);
                }
            },
            _ => {
                if k > 1 {
                    lemma_scan_done_bounds(data, strings, n, (k - 1) as nat);
                }
            },
        },
        _ => {},
    }
}

/// The memory reservation block from `off` ends, before the data runs out,
/// with an entry whose address or size is zero.
pub open spec fn reservations_ok(data: Seq<u8>, off: int) -> bool
    decreases data.len() - off,
{
    if off + 16 > data.len() {
        false
    } else if be64(data, off) == 0 || be64(data, off + 8) == 0 {
        true
    } else {
        reservations_ok(data, off + 16)
    }
}

/// `core::str::from_utf8`: a string exactly when the bytes are valid UTF-8,
/// and then the string's bytes are the ones given.
#[verifier::external_body]
fn str_from_utf8<'a>(bytes: &'a [u8]) -> (r: Option<&'a str>)
    ensures
        r is Some <==> valid_utf8(bytes@),
        r matches Some(s) ==> s.spec_bytes() == bytes@,
{
    core::str::from_utf8(bytes).ok()
}

/// The big-endian 32-bit word at `off`.
fn read_be32(data: &[u8], off: usize) -> (r: u32)
    requires
        off + 4 <= data@.len(),
    ensures
        r == be32(data@, off as int),
{
    let b0 = data[off] as u32;
    let b1 = data[off + 1] as u32;
    let b2 = data[off + 2] as u32;
    let b3 = data[off + 3] as u32;
    b0 * 0x100_0000 + b1 * 0x1_0000 + b2 * 0x100 + b3
}

/// The big-endian 64-bit word at `off`.
fn read_be64(data: &[u8], off: usize) -> (r: u64)
    requires
        off + 8 <= data@.len(),
    ensures
        r == be64(data@, off as int),
{
    let b0 = data[off] as u64;
    let b1 = data[off + 1] as u64;
    let b2 = data[off + 2] as u64;
    let b3 = data[off + 3] as u64;
    let b4 = data[off + 4] as u64;
    let b5 = data[off + 5] as u64;
    let b6 = data[off + 6] as u64;
    let b7 = data[off + 7] as u64;
    b0 * 0x100_0000_0000_0000 + b1 * 0x1_0000_0000_0000 + b2 * 0x100_0000_0000 + b3
        * 0x1_0000_0000 + b4 * 0x100_0000 + b5 * 0x1_0000 + b6 * 0x100 + b7
}

/// The NUL-terminated string at `start`, as `CStr::from_bytes_until_nul`
/// followed by `CStr::to_str` finds it.
fn cstr_from(data: &[u8], start: usize) -> (r: Option<&str>)
    requires
        start <= data@.len(),
    ensures
        match cstr_at(data@, start as int) {
            Some(b) => r matches Some(s) && s.spec_bytes() == b,
            None => r is None,
        },
{
    proof {
        lemma_nul_from_bounds(data@, start as int);
    }
    let mut i = start;
    while i < data.len() && data[i] != 0
        invariant
            start <= i <= data@.len(),
            nul_from(data@, i as int) == nul_from(data@, start as int),
        decreases data@.len() - i,
    {
        i = i + 1;
    }
    if i == data.len() {
        return None;
    }
    str_from_utf8(vstd::slice::slice_subrange(data, start, i))
}

/// A token read without taking it apart: its effect on the nesting and the
/// offset after it.
enum TokenEffect {
    Fail,
    Malformed,
    Open(usize),
    Close(usize),
    Prop(u32, usize),
}

/// What reading a token at `off` would do, without panicking where the
/// reader would.
fn token_effect(data: &[u8], off: usize) -> (r: TokenEffect)
    requires
        data@.len() <= isize::MAX,
        off + 4 <= usize::MAX,
    ensures
        match step(data@, off as int) {
            StepSpec::Fail(_) => r is Fail,
            StepSpec::Malformed => r is Malformed,
            StepSpec::Token(TokenSpec::BeginNode(_), n) => r == TokenEffect::Open(n as usize) && n <= usize::MAX,
            StepSpec::Token(TokenSpec::Prop { nameoff, value: _ }, n) => r == TokenEffect::Prop(nameoff, n as usize) && n <= usize::MAX,
            StepSpec::Token(_, n) => r == TokenEffect::Close(n as usize) && n <= usize::MAX,
        },
{
    proof {
        lemma_four_is_pow2();
        reveal(step);
    }
    if off + 4 > data.len() {
        return TokenEffect::Fail;
    }
    let tag = read_be32(data, off);
    let p = off + 4;
    if tag == FDT_BEGIN_NODE {
        proof {
            lemma_nul_from_bounds(data@, p as int);
        }
        match cstr_from(data, p) {
            Some(name) => TokenEffect::Open(align_up((p + name.len() + 1) as u64, 4) as usize),
            None => TokenEffect::Malformed,
        }
    } else if tag == FDT_END_NODE {
        TokenEffect::Close(p)
    } else if tag == FDT_PROP {
        if p + 4 > data.len() || p + 8 > data.len() {
            return TokenEffect::Fail;
        }
        let len = read_be32(data, p) as usize;
        let nameoff = read_be32(data, p + 4);
        let q = p + 8;
        if len > data.len() - q {
            TokenEffect::Malformed
        } else {
            TokenEffect::Prop(nameoff, align_up((q + len) as u64, 4) as usize)
        }
    } else if tag == FDT_NOP {
        TokenEffect::Close(align_up((p + 4) as u64, 4) as usize)
    } else if tag == FDT_END {
        TokenEffect::Close(p)
    } else {
        TokenEffect::Fail
    }
}

/// A structure-block token.
pub enum FDTToken<'a> {
    BeginNode(&'a str),
    Prop { nameoff: u32, value: &'a [u8] },
    EndNode,
    Nop,
    End,
}

impl<'a> View for FDTToken<'a> {
    type V = TokenSpec;

    open spec fn view(&self) -> TokenSpec {
        match *self {
            FDTToken::BeginNode(name) => TokenSpec::BeginNode(name.spec_bytes()),
            FDTToken::Prop { nameoff, value } => TokenSpec::Prop { nameoff, value: value@ },
            FDTToken::EndNode => TokenSpec::EndNode,
            FDTToken::Nop => TokenSpec::Nop,
            FDTToken::End => TokenSpec::End,
        }
    }
}

/// A read position in device tree data.
pub struct FDTStream<'a> {
    pub data: &'a [u8],
    pub offset: usize,
}

impl<'a> FDTStream<'a> {
    pub fn new(data: &'a [u8], offset: usize) -> (r: Self)
        ensures
            r.data == data,
            r.offset == offset,
    {
        Self { data: data, offset: offset }
    }

    /// Reads a big-endian 32-bit word and moves past it; fails, moving
    /// nowhere, where fewer than four bytes are left.
    pub fn parse_u32(&mut self) -> (r: Result<u32, ()>)
        requires
            old(self).offset + 4 <= usize::MAX,
        ensures
            final(self).data == old(self).data,
            old(self).offset + 4 > old(self).data@.len() ==> r is Err && final(self).offset
                == old(self).offset,
            old(self).offset + 4 <= old(self).data@.len() ==> r == Ok::<u32, ()>(
                be32(old(self).data@, old(self).offset as int),
            ) && final(self).offset == old(self).offset + 4,
    {
        let next_offset = self.offset + 4;
        if next_offset > self.data.len() {
            return Err(());
        }
        let ret = read_be32(self.data, self.offset);
        self.offset = next_offset;
        Ok(ret)
    }

    /// Reads a big-endian 64-bit word and moves past it; fails, moving
    /// nowhere, where fewer than eight bytes are left.
    pub fn parse_u64(&mut self) -> (r: Result<u64, ()>)
        requires
            old(self).offset + 8 <= usize::MAX,
        ensures
            final(self).data == old(self).data,
            old(self).offset + 8 > old(self).data@.len() ==> r is Err && final(self).offset
                == old(self).offset,
            old(self).offset + 8 <= old(self).data@.len() ==> r == Ok::<u64, ()>(
                be64(old(self).data@, old(self).offset as int),
            ) && final(self).offset == old(self).offset + 8,
    {
        let next_offset = self.offset + 8;
        if next_offset > self.data.len() {
            return Err(());
        }
        let ret = read_be64(self.data, self.offset);
        self.offset = next_offset;
        Ok(ret)
    }

    /// Reads one structure-block token. Node names and property values
    /// must lie within the data (the input where this would not hold is
    /// left out).
    pub fn next_token(&mut self) -> (r: Result<FDTToken<'a>, ()>)
        requires
            old(self).data@.len() <= isize::MAX,
            old(self).offset + 4 <= usize::MAX,
            !(step(old(self).data@, old(self).offset as int) is Malformed),
        ensures
            final(self).data == old(self).data,
            match step(old(self).data@, old(self).offset as int) {
                StepSpec::Fail(o) => r is Err && final(self).offset == o,
                StepSpec::Token(t, n) => r matches Ok(tok) && tok@ == t && final(self).offset == n,
                StepSpec::Malformed => true,
            },
            r matches Ok(FDTToken::BeginNode(name)) ==> final(self).offset % 4 == 0 && old(self).offset + 4
                + name.spec_bytes().len() + 1 <= final(self).offset < old(self).offset + 4
                + name.spec_bytes().len() + 5,
    {
        proof {
            lemma_four_is_pow2();
            reveal(step);
        }
        let token_type = match self.parse_u32() {
            Ok(t) => t,
            Err(e) => return Err(e),
        };
        if token_type == FDT_BEGIN_NODE {
            proof {
                lemma_nul_from_bounds(self.data@, self.offset as int);
            }
            let name = match cstr_from(self.data, self.offset) {
                Some(name) => name,
                None => return Err(()),
            };
            proof {
                crate::align::lemma_round_bounds(self.offset + name.spec_bytes().len() + 1, 4);
            }
            self.offset = align_up((self.offset + name.len() + 1) as u64, 4) as usize;
            Ok(FDTToken::BeginNode(name))
        } else if token_type == FDT_END_NODE {
            Ok(FDTToken::EndNode)
        } else if token_type == FDT_PROP {
            let len = match self.parse_u32() {
                Ok(l) => l as usize,
                Err(e) => return Err(e),
            };
            let nameoff = match self.parse_u32() {
                Ok(n) => n,
                Err(e) => return Err(e),
            };
            let value = vstd::slice::slice_subrange(self.data, self.offset, self.offset + len);
            self.offset = align_up((self.offset + len) as u64, 4) as usize;
            Ok(FDTToken::Prop { nameoff, value })
        } else if token_type == FDT_NOP {
            self.offset = align_up((self.offset + 4) as u64, 4) as usize;
            Ok(FDTToken::Nop)
        } else if token_type == FDT_END {
            Ok(FDTToken::End)
        } else {
            Err(())
        }
    }
}

/// Parser state carried into a node.
#[derive(Clone, Copy)]
pub struct FDTParseContext {
    pub depth: usize,
}

impl Default for FDTParseContext {
    fn default() -> (r: Self)
        ensures
            r.depth == 0,
    {
        Self { depth: 0 }
    }
}

/// What a device tree holds: its bytes (as far as the header's total size
/// says) and the offsets of its blocks.
pub struct DevicetreeView {
    pub data: Seq<u8>,
    pub struct_offset: int,
    pub strings_offset: int,
    pub reserve_offset: int,
}

/// A device tree whose header passed the checks.
pub struct Devicetree<'a> {
    data: &'a [u8],
    struct_offset: usize,
    strings_offset: usize,
    reserve_offset: usize,
}

impl<'a> View for Devicetree<'a> {
    type V = DevicetreeView;

    closed spec fn view(&self) -> DevicetreeView {
        DevicetreeView {
            data: self.data@,
            struct_offset: self.struct_offset as int,
            strings_offset: self.strings_offset as int,
            reserve_offset: self.reserve_offset as int,
        }
    }
}

/// The header at the start of `mem` passes the checks: the magic number,
/// and block offsets inside the total size.
pub open spec fn header_ok(mem: Seq<u8>) -> bool {
    &&& be32(mem, 0) == FDT_MAGIC
    &&& be32(mem, 8) < be32(mem, 4)
    &&& be32(mem, 12) < be32(mem, 4)
}

/// Parsing a whole device tree succeeds: the reservation block is closed by
/// a zero entry, and the structure block, read as the content of one node,
/// completes.
pub open spec fn tree_ok(v: DevicetreeView) -> bool {
    &&& reservations_ok(v.data, v.reserve_offset)
    &&& scan(v.data, v.strings_offset, v.struct_offset, 1) is Done
}

/// The parse of `v` panics nowhere: where the reservation block is read
/// through, the structure block holds node names and property values
/// inside the data, and property names inside the strings block.
pub open spec fn tree_readable(v: DevicetreeView) -> bool {
    reservations_ok(v.data, v.reserve_offset) ==> !(scan(
        v.data,
        v.strings_offset,
        v.struct_offset,
        1,
    ) is Malformed)
}

impl<'a> Devicetree<'a> {
    #[verifier::type_invariant]
    closed spec fn inv(self) -> bool {
        &&& self.data@.len() <= isize::MAX
        &&& self.data@.len() <= u32::MAX
        &&& self.struct_offset < self.data@.len()
        &&& self.strings_offset < self.data@.len()
        &&& self.reserve_offset <= u32::MAX
    }

    /// Checks the header at the start of `mem` and takes the tree's bytes.
    /// `mem` is the memory from the header on: it holds the whole header,
    /// and, where the magic number matches, the total size that the header
    /// gives.
    pub fn new(mem: &'a [u8]) -> (r: Result<Self, ()>)
        requires
            mem@.len() >= FDT_HEADER_SIZE,
            mem@.len() <= isize::MAX,
            be32(mem@, 0) == FDT_MAGIC ==> be32(mem@, 4) <= mem@.len(),
        ensures
            r is Ok <==> header_ok(mem@),
            r matches Ok(dt) ==> dt@ == (DevicetreeView {
                data: mem@.subrange(0, be32(mem@, 4) as int),
                struct_offset: be32(mem@, 8) as int,
                strings_offset: be32(mem@, 12) as int,
                reserve_offset: be32(mem@, 16) as int,
            }),
    {
        if read_be32(mem, 0) != FDT_MAGIC {
            return Err(());
        }
        let totalsize = read_be32(mem, 4) as usize;
        let data = vstd::slice::slice_subrange(mem, 0, totalsize);
        let struct_offset = read_be32(mem, 8) as usize;
        let strings_offset = read_be32(mem, 12) as usize;
        let reserve_offset = read_be32(mem, 16) as usize;
        if struct_offset >= totalsize || strings_offset >= totalsize {
            return Err(());
        }
        Ok(Self {
            data: data,
            struct_offset: struct_offset,
            strings_offset: strings_offset,
            reserve_offset: reserve_offset,
        })
    }

    /// The property name at `offset` in the strings block.
    fn get_string(&self, offset: u32) -> (r: &'a str)
        requires
            cstr_at(self@.data, self@.strings_offset + offset) is Some,
        ensures
            Some(r.spec_bytes()) == cstr_at(self@.data, self@.strings_offset + offset),
    {
        proof {
            use_type_invariant(self);
        }
        match cstr_from(self.data, self.strings_offset + offset as usize) {
            Some(name) => name,
            None => "",
        }
    }

    /// Whether [`Devicetree::parse`] can run on this tree without reading a
    /// node name, property value or property name outside the data.
    pub fn is_readable(&self) -> (r: bool)
        requires
            self@.reserve_offset + 8 <= usize::MAX,
        ensures
            r == tree_readable(self@),
    {
        proof {
            use_type_invariant(self);
        }
        if self.parse_reservation_block().is_err() {
            return true;
        }
        let ghost data = self@.data;
        let ghost strings = self@.strings_offset;
        let ghost target = scan(data, strings, self.struct_offset as int, 1);
        let mut off = self.struct_offset;
        let mut depth: usize = 1;
        loop
            invariant
                data == self.data@,
                strings == self.strings_offset,
                self.strings_offset < data.len() <= isize::MAX,
                off <= data.len() + 8,
                1 <= depth <= off + 1,
                scan(data, strings, off as int, depth as nat) == target,
                target == scan(data, strings, self@.struct_offset, 1),
                reservations_ok(data, self@.reserve_offset),
            decreases data.len() + 8 - off,
        {
            proof {
                lemma_step_bounds(data, off as int);
            }
            match token_effect(self.data, off) {
                TokenEffect::Fail => return true,
                TokenEffect::Malformed => return false,
                TokenEffect::Open(n) => {
                    depth = depth + 1;
                    off = n;
                },
                TokenEffect::Close(n) => {
                    depth = depth - 1;
                    off = n;
                    if depth == 0 {
                        return true;
                    }
                },
                TokenEffect::Prop(nameoff, n) => {
                    if nameoff as usize > self.data.len() - self.strings_offset {
                        return false;
                    }
                    match cstr_from(self.data, self.strings_offset + nameoff as usize) {
                        Some(_) => {},
                        None => return false,
                    }
                    off = n;
                },
            }
        }
    }

    /// Reads the reservation block and then the structure block.
    pub fn parse(&self) -> (r: Result<(), ()>)
        requires
            tree_readable(self@),
            self@.reserve_offset + 8 <= usize::MAX,
        ensures
            r is Ok <==> tree_ok(self@),
    {
        match self.parse_reservation_block() {
            Ok(()) => {},
            Err(e) => return Err(e),
        }
        self.parse_structure_block()
    }

    fn parse_structure_block(&self) -> (r: Result<(), ()>)
        requires
            !(scan(self@.data, self@.strings_offset, self@.struct_offset, 1) is Malformed),
        ensures
            r is Ok <==> scan(self@.data, self@.strings_offset, self@.struct_offset, 1) is Done,
    {
        proof {
            use_type_invariant(self);
        }
        let mut stream = FDTStream::new(self.data, self.struct_offset);
        let context = FDTParseContext::default();
        self.parse_node(&mut stream, context)
    }

    fn parse_reservation_block(&self) -> (r: Result<(), ()>)
        requires
            self@.reserve_offset + 8 <= usize::MAX,
        ensures
            r is Ok <==> reservations_ok(self@.data, self@.reserve_offset),
    {
        proof {
            use_type_invariant(self);
        }
        let mut stream = FDTStream::new(self.data, self.reserve_offset);
        loop
            invariant_except_break
                stream.data@ == self.data@,
                stream.offset + 8 <= usize::MAX,
                stream.offset <= self.reserve_offset || stream.offset <= self.data@.len(),
                self.data@.len() <= isize::MAX,
                reservations_ok(self.data@, stream.offset as int) == reservations_ok(
                    self.data@,
                    self.reserve_offset as int,
                ),
            ensures
                reservations_ok(self.data@, self.reserve_offset as int),
            decreases self.data@.len() + 16 - stream.offset,
        {
            let address = match stream.parse_u64() {
                Ok(a) => a,
                Err(e) => return Err(e),
            };
            let size = match stream.parse_u64() {
                Ok(s) => s,
                Err(e) => return Err(e),
            };
            if address == 0 || size == 0 {
                break;
            }
        }
        Ok(())
    }

    /// Parses the content of one node, up to and with the token that
    /// closes it, descending into the nodes it holds.
    fn parse_node(&self, stream: &mut FDTStream<'a>, context: FDTParseContext) -> (r: Result<(), ()>)
        requires
            old(stream).data@ == self@.data,
            old(stream).offset <= self@.data.len() + 8,
            context.depth <= old(stream).offset,
            !(scan(self@.data, self@.strings_offset, old(stream).offset as int, 1) is Malformed),
        ensures
            final(stream).data@ == old(stream).data@,
            match scan(self@.data, self@.strings_offset, old(stream).offset as int, 1) {
                ScanSpec::Done(e) => r is Ok && final(stream).offset == e,
                ScanSpec::Fail(o) => r is Err && final(stream).offset == o,
                ScanSpec::Malformed => true,
            },
        decreases self@.data.len() + 8 - old(stream).offset,
    {
        proof {
            use_type_invariant(self);
        }
        let ghost data = self@.data;
        let ghost strings = self@.strings_offset;
        let ghost start = stream.offset as int;
        let ghost target = scan(data, strings, start, 1);
        let next_context = FDTParseContext { depth: context.depth + 1 };
        loop
            invariant
                stream.data@ == data,
                data == self@.data,
                strings == self@.strings_offset,
                data.len() <= isize::MAX,
                start <= stream.offset <= data.len() + 8,
                next_context.depth <= start + 1,
                !(target is Malformed),
                scan(data, strings, stream.offset as int, 1) == target,
                target == scan(data, strings, start, 1),
                start == old(stream).offset,
                old(stream).data@ == data,
            decreases data.len() + 8 - stream.offset,
        {
            let ghost here = stream.offset as int;
            proof {
                lemma_step_bounds(data, here);
            }
            let token = match stream.next_token() {
                Ok(t) => t,
                Err(e) => return Err(e),
            };
            match token {
                FDTToken::BeginNode(_name) => {
                    proof {
                        lemma_scan_nest(data, strings, stream.offset as int, 1, 1);
                        lemma_scan_done_bounds(data, strings, stream.offset as int, 1);
                    }
                    match self.parse_node(stream, next_context) {
                        Ok(()) => {},
                        Err(e) => return Err(e),
                    }
                },
                FDTToken::Prop { nameoff, value: _ } => {
                    let _name = self.get_string(nameoff);
                },
                FDTToken::EndNode => {
                    assert(scan(data, strings, stream.offset as int, 0) == ScanSpec::Done(
                        stream.offset as int,
                    ));
                    return Ok(());
                },
                FDTToken::Nop => {
                    assert(scan(data, strings, stream.offset as int, 0) == ScanSpec::Done(
                        stream.offset as int,
                    ));
                    return Ok(());
                },
                FDTToken::End => {
                    assert(scan(data, strings, stream.offset as int, 0) == ScanSpec::Done(
                        stream.offset as int,
                    ));
                    return Ok(());
                },
            }
        }
    }
}

/// The first NUL at or after `p` is at `p + k` where the `k` bytes from `p`
/// are not zero and the byte at `p + k` is.
proof fn lemma_nul_from_at(s: Seq<u8>, p: int, k: int)
    requires
        0 <= p,
        0 <= k,
        p + k < s.len(),
        forall|i: int| p <= i < p + k ==> s[i] != 0,
        s[p + k] == 0,
    ensures
        nul_from(s, p) == p + k,
    decreases k,
{
    if k > 0 {
        lemma_nul_from_at(s, p + 1, k - 1);
    }
}

/// A BEGIN_NODE token at `off` whose name is `k` non-zero UTF-8 bytes
/// followed by a NUL reads as that name, and the next token starts after
/// the name, exactly one NUL byte and the padding up to the next 4-byte
/// boundary: at the least multiple of 4 that is at least `off + 4 + k + 1`.
/// For an aligned `off` that is `off + 4 + 4 * ceil((k + 1) / 4)`.
pub proof fn lemma_begin_node_step(data: Seq<u8>, off: int, k: int)
    requires
        0 <= off,
        0 <= k,
        off + 4 + k < data.len(),
        be32(data, off) == FDT_BEGIN_NODE,
        forall|i: int| off + 4 <= i < off + 4 + k ==> data[i] != 0,
        data[off + 4 + k] == 0,
        valid_utf8(data.subrange(off + 4, off + 4 + k)),
    ensures
        step(data, off) matches StepSpec::Token(TokenSpec::BeginNode(name), n) && name == data.subrange(
            off + 4,
            off + 4 + k,
        ) && n % 4 == 0 && off + 4 + k + 1 <= n < off + 4 + k + 5,
        off % 4 == 0 ==> (step(data, off) matches StepSpec::Token(_, n) && n == off + 4 + 4 * ((k + 4) / 4)),
{
    reveal(step);
    lemma_nul_from_at(data, off + 4, k);
    let x = off + 4 + k + 1;
    assert(round_up(x, 4) % 4 == 0 && x <= round_up(x, 4) < x + 4) by {
        crate::align::lemma_round_bounds(x, 4);
    }
    if off % 4 == 0 {
        assert(round_up(x, 4) == off + 4 + 4 * ((k + 4) / 4)) by {
            crate::align::lemma_round_bounds(x, 4);
        }
    }
}

} // verus!
