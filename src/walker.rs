//! The stack walker: one sample of the interpreter's call stack.

use crate::layout::LayoutDescriptor;
use crate::remote::{
    fetch, le_value, read_remote, read_word, word_at, Attachable, ProcessReader, SampleError,
    MAX_READ,
};
use vstd::prelude::*;
use vstd::string::StringExecFns;

verus! {

/// The text that `String::from_utf8_lossy` makes of `b`.
pub uninterp spec fn utf8_lossy(b: Seq<u8>) -> Seq<char>;

/// Relies on `String::from_utf8_lossy`: the text depends on the bytes
/// alone, and no bytes give no text.
#[verifier::external_body]
fn decode_lossy(b: &Vec<u8>) -> (r: String)
    ensures
        r@ == utf8_lossy(b@),
        b@.len() == 0 ==> r@.len() == 0,
{
    String::from_utf8_lossy(b).into_owned()
}

/// One decoded stack entry.
#[derive(Clone, Debug)]
pub struct Frame {
    pub name: String,
    pub scope: Option<String>,
    /// The frame's `This` slot is set: a method call rather than a static one.
    pub method: bool,
}

pub struct FrameView {
    pub name: Seq<char>,
    pub scope: Option<Seq<char>>,
    pub method: bool,
}

impl View for Frame {
    type V = FrameView;

    open spec fn view(&self) -> FrameView {
        FrameView {
            name: self.name@,
            scope: match self.scope {
                Some(s) => Some(s@),
                None => None,
            },
            method: self.method,
        }
    }
}

/// The frames of one sample, innermost first.
#[derive(Clone, Debug)]
pub struct Trace {
    pub frames: Vec<Frame>,
}

pub open spec fn frames_view(fs: Seq<Frame>) -> Seq<FrameView> {
    fs.map_values(|f: Frame| f@)
}

impl View for Trace {
    type V = Seq<FrameView>;

    open spec fn view(&self) -> Seq<FrameView> {
        frames_view(self.frames@)
    }
}

/// The word at `addr` in the target.
pub open spec fn fetch_word<R: ProcessReader>(rd: &R, addr: int) -> Result<nat, SampleError> {
    match fetch(rd, addr, 8) {
        Ok(b) => Ok(le_value(b)),
        Err(e) => Err(e),
    }
}

/// The interned string whose record is at `addr`: its length word, then
/// that many bytes, read as UTF-8 with invalid sequences replaced.
pub open spec fn fetch_string<R: ProcessReader>(rd: &R, d: LayoutDescriptor, addr: nat) -> Result<Seq<char>, SampleError> {
    match fetch_word(rd, addr + d.zstr_len) {
        Err(e) => Err(e),
        Ok(n) => match fetch(rd, addr + d.zstr_val, n as int) {
            Ok(b) => Ok(utf8_lossy(b)),
            Err(e) => Err(e),
        },
    }
}

/// The frame whose function record is at `func` and whose `This` slot
/// holds `this`.
pub open spec fn decode_frame<R: ProcessReader>(rd: &R, d: LayoutDescriptor, func: nat, this: nat) -> Result<FrameView, SampleError> {
    if func == 0 {
        Ok(FrameView { name: "???"@, scope: None, method: this != 0 })
    } else {
        match fetch_word(rd, func + d.fu_function_name) {
            Err(e) => Err(e),
            Ok(name_addr) => {
                let name = if name_addr == 0 {
                    Ok("main"@)
                } else {
                    fetch_string(rd, d, name_addr)
                };
                match name {
                    Err(e) => Err(e),
                    Ok(name) => match fetch_word(rd, func + d.fu_scope) {
                        Err(e) => Err(e),
                        Ok(scope_addr) => if scope_addr == 0 {
                            Ok(FrameView { name, scope: None, method: this != 0 })
                        } else {
                            match fetch_word(rd, scope_addr + d.ce_name) {
                                Err(e) => Err(e),
                                Ok(class_name) => match fetch_string(rd, d, class_name) {
                                    Err(e) => Err(e),
                                    Ok(c) => Ok(FrameView { name, scope: Some(c), method: this != 0 }),
                                },
                            }
                        },
                    },
                }
            },
        }
    }
}

/// A whole frame record at `off` lies inside `len` captured bytes.
pub open spec fn frame_fits(d: LayoutDescriptor, len: nat, off: int) -> bool {
    0 <= off && off + d.ed_byte_size <= len
}

/// The frames from the one at `off` in the captured stack `buf` (which
/// starts at address `low`) outwards, at most `fuel` of them.  A previous
/// frame pointer of zero ends the chain; one that leaves the captured
/// range ends it too.
pub open spec fn walk<R: ProcessReader>(
    rd: &R,
    d: LayoutDescriptor,
    buf: Seq<u8>,
    low: nat,
    off: int,
    fuel: nat,
) -> Result<Seq<FrameView>, SampleError>
    decreases fuel,
{
    if fuel == 0 || !frame_fits(d, buf.len(), off) {
        Ok(seq![])
    } else {
        let func = word_at(buf, off + d.ed_func);
        let this = word_at(buf, off + d.ed_this);
        let prev = word_at(buf, off + d.ed_prev_execute_data);
        match decode_frame(rd, d, func, this) {
            Err(e) => Err(e),
            Ok(f) => if prev == 0 {
                Ok(seq![f])
            } else {
                match walk(rd, d, buf, low, prev - low, (fuel - 1) as nat) {
                    Ok(rest) => Ok(seq![f] + rest),
                    Err(e) => Err(e),
                }
            },
        }
    }
}

/// The size of the live stack region between `low` and `high`.
pub open spec fn live_len(low: nat, high: nat) -> nat {
    if high >= low {
        (high - low) as nat
    } else {
        0
    }
}

/// What one sample of the target yields under descriptor `d`.
pub open spec fn sample_spec<R: ProcessReader>(rd: &R, d: LayoutDescriptor) -> Result<Seq<FrameView>, SampleError> {
    match fetch(rd, d.executor_globals_address as int, d.eg_byte_size as int) {
        Err(e) => Err(e),
        Ok(eg) => {
            let cur = word_at(eg, d.eg_current_execute_data as int);
            let high = word_at(eg, d.eg_vm_stack_top as int);
            let stack = word_at(eg, d.eg_vm_stack as int);
            match fetch(rd, stack as int, d.stack_byte_size as int) {
                Err(e) => Err(e),
                Ok(header) => {
                    let low = word_at(header, 0);
                    match fetch(rd, low as int, live_len(low, high) as int) {
                        Err(e) => Err(e),
                        Ok(buf) => if !frame_fits(d, buf.len(), cur - low) {
                            Err(SampleError::NoLivestack)
                        } else {
                            walk(rd, d, buf, low, cur - low, buf.len() / (d.ed_byte_size as nat))
                        },
                    }
                },
            }
        },
    }
}

/// Reads the word at `addr + off` in the target.
fn remote_word<R: ProcessReader>(rd: &R, addr: u64, off: usize) -> (r: Result<u64, SampleError>)
    ensures
        match fetch_word(rd, addr + off) {
            Ok(w) => r matches Ok(x) && x as nat == w,
            Err(e) => r == Err::<u64, SampleError>(e),
        },
{
    match addr.checked_add(off as u64) {
        None => Err(SampleError::UnreadableRegion),
        Some(a) => match read_remote(rd, a, 8) {
            Err(e) => Err(e),
            Ok(b) => {
                assert(b@.subrange(0, 8) =~= b@);
                Ok(read_word(&b, 0))
            },
        },
    }
}

/// Reads the interned string whose record is at `addr`.
fn remote_string<R: ProcessReader>(rd: &R, d: &LayoutDescriptor, addr: u64) -> (r: Result<String, SampleError>)
    ensures
        match fetch_string(rd, *d, addr as nat) {
            Ok(s) => r matches Ok(x) && x@ == s,
            Err(e) => r == Err::<String, SampleError>(e),
        },
{
    let n = match remote_word(rd, addr, d.zstr_len) {
        Err(e) => {
            return Err(e);
        },
        Ok(n) => n,
    };
    if n > MAX_READ as u64 {
        return Err(SampleError::TooLarge);
    }
    match addr.checked_add(d.zstr_val as u64) {
        None => Err(SampleError::UnreadableRegion),
        Some(a) => match read_remote(rd, a, n as usize) {
            Err(e) => Err(e),
            Ok(b) => Ok(decode_lossy(&b)),
        },
    }
}

/// Decodes the frame whose function record is at `func`.
fn read_frame<R: ProcessReader>(rd: &R, d: &LayoutDescriptor, func: u64, this: u64) -> (r: Result<Frame, SampleError>)
    ensures
        match decode_frame(rd, *d, func as nat, this as nat) {
            Ok(f) => r matches Ok(x) && x@ == f,
            Err(e) => r == Err::<Frame, SampleError>(e),
        },
{
    let method = this != 0;
    if func == 0 {
        return Ok(Frame { name: "???".to_owned(), scope: None, method });
    }
    let name_addr = match remote_word(rd, func, d.fu_function_name) {
        Err(e) => {
            return Err(e);
        },
        Ok(a) => a,
    };
    let name = if name_addr == 0 {
        "main".to_owned()
    } else {
        match remote_string(rd, d, name_addr) {
            Err(e) => {
                return Err(e);
            },
            Ok(s) => s,
        }
    };
    let scope_addr = match remote_word(rd, func, d.fu_scope) {
        Err(e) => {
            return Err(e);
        },
        Ok(a) => a,
    };
    if scope_addr == 0 {
        return Ok(Frame { name, scope: None, method });
    }
    let class_name = match remote_word(rd, scope_addr, d.ce_name) {
        Err(e) => {
            return Err(e);
        },
        Ok(a) => a,
    };
    match remote_string(rd, d, class_name) {
        Err(e) => Err(e),
        Ok(c) => Ok(Frame { name, scope: Some(c), method }),
    }
}

/// Prepends the frames already decoded to what the rest of the walk yields.
pub open spec fn prefixed(p: Seq<FrameView>, r: Result<Seq<FrameView>, SampleError>) -> Result<Seq<FrameView>, SampleError> {
    match r {
        Ok(rest) => Ok(p + rest),
        Err(e) => Err(e),
    }
}

/// Walks the frame chain in the captured stack `buf`, from the frame at `off`.
fn walk_frames<R: ProcessReader>(
    rd: &R,
    d: &LayoutDescriptor,
    buf: &Vec<u8>,
    low: u64,
    off: usize,
    fuel: usize,
) -> (r: Result<Trace, SampleError>)
    requires
        d.wf(),
    ensures
        match walk(rd, *d, buf@, low as nat, off as int, fuel as nat) {
            Ok(fs) => r matches Ok(t) && t@ == fs,
            Err(e) => r == Err::<Trace, SampleError>(e),
        },
{
    let ghost goal = walk(rd, *d, buf@, low as nat, off as int, fuel as nat);
    let mut frames: Vec<Frame> = Vec::new();
    let mut at = off;
    let mut left = fuel;
    let len = buf.len();
    assert(frames_view(frames@) =~= Seq::<FrameView>::empty());
    assert(Seq::<FrameView>::empty() + walk(rd, *d, buf@, low as nat, off as int, fuel as nat)->Ok_0
        =~= walk(rd, *d, buf@, low as nat, off as int, fuel as nat)->Ok_0);
    loop
        invariant
            d.wf(),
            goal == walk(rd, *d, buf@, low as nat, off as int, fuel as nat),
            len == buf@.len(),
            goal == prefixed(
                frames_view(frames@),
                walk(rd, *d, buf@, low as nat, at as int, left as nat),
            ),
        decreases left,
    {
        if left == 0 || at > len || len - at < d.ed_byte_size {
            assert(frames_view(frames@) + Seq::<FrameView>::empty() =~= frames_view(frames@));
            return Ok(Trace { frames });
        }
        let func = read_word(buf, at + d.ed_func);
        let this = read_word(buf, at + d.ed_this);
        let prev = read_word(buf, at + d.ed_prev_execute_data);
        let f = match read_frame(rd, d, func, this) {
            Err(e) => {
                return Err(e);
            },
            Ok(f) => f,
        };
        let ghost before = frames_view(frames@);
        let ghost fv = f@;
        frames.push(f);
        assert(frames_view(frames@) =~= before.push(fv));
        if prev == 0 {
            assert(before + seq![fv] =~= before.push(fv));
            assert(frames_view(frames@) + Seq::<FrameView>::empty() =~= frames_view(frames@));
            return Ok(Trace { frames });
        }
        proof {
            let rest = walk(rd, *d, buf@, low as nat, prev - low, (left - 1) as nat);
            if rest is Ok {
                assert(before + (seq![fv] + rest->Ok_0) =~= before.push(fv) + rest->Ok_0);
            }
        }
        if prev < low || prev - low > len as u64 {
            assert(frames_view(frames@) + Seq::<FrameView>::empty() =~= frames_view(frames@));
            return Ok(Trace { frames });
        }
        at = (prev - low) as usize;
        left = left - 1;
    }
}

/// Takes one sample: copies the executor globals, the stack header and
/// the live stack out of the target, then walks the frames in the copy.
pub fn sample<R: ProcessReader>(rd: &R, d: &LayoutDescriptor) -> (r: Result<Trace, SampleError>)
    requires
        d.wf(),
    ensures
        match sample_spec(rd, *d) {
            Ok(fs) => r matches Ok(t) && t@ == fs,
            Err(e) => r == Err::<Trace, SampleError>(e),
        },
        r matches Ok(t) ==> t@.len() * d.ed_byte_size <= MAX_READ,
{
    let eg = match read_remote(rd, d.executor_globals_address, d.eg_byte_size) {
        Err(e) => {
            return Err(e);
        },
        Ok(b) => b,
    };
    let cur = read_word(&eg, d.eg_current_execute_data);
    let high = read_word(&eg, d.eg_vm_stack_top);
    let stack = read_word(&eg, d.eg_vm_stack);
    let header = match read_remote(rd, stack, d.stack_byte_size) {
        Err(e) => {
            return Err(e);
        },
        Ok(b) => b,
    };
    let low = read_word(&header, 0);
    let live: u64 = if high >= low {
        high - low
    } else {
        0
    };
    if live > MAX_READ as u64 {
        return Err(SampleError::TooLarge);
    }
    let buf = match read_remote(rd, low, live as usize) {
        Err(e) => {
            return Err(e);
        },
        Ok(b) => b,
    };
    let len = buf.len();
    if cur < low || cur - low > len as u64 || len - ((cur - low) as usize) < d.ed_byte_size {
        return Err(SampleError::NoLivestack);
    }
    let off = (cur - low) as usize;
    let fuel = len / d.ed_byte_size;
    let r = walk_frames(rd, d, &buf, low, off, fuel);
    proof {
        lemma_walk_len(rd, *d, buf@, low as nat, off as int, fuel as nat);
        if r is Ok {
            let k = r->Ok_0@.len();
            let e = d.ed_byte_size as nat;
            let f = fuel as nat;
            let n = len as nat;
            assert(k * e <= n) by (nonlinear_arith)
                requires
                    k <= f,
                    f == n / e,
                    e > 0,
            ;
        }
    }
    r
}

/// The walk yields at most `fuel` frames.
pub proof fn lemma_walk_len<R: ProcessReader>(
    rd: &R,
    d: LayoutDescriptor,
    buf: Seq<u8>,
    low: nat,
    off: int,
    fuel: nat,
)
    ensures
        walk(rd, d, buf, low, off, fuel) matches Ok(fs) ==> fs.len() <= fuel,
    decreases fuel,
{
    if fuel > 0 && frame_fits(d, buf.len(), off) {
        let prev = word_at(buf, off + d.ed_prev_execute_data);
        lemma_walk_len(rd, d, buf, low, prev - low, (fuel - 1) as nat);
    }
}

/// Two targets that hold the same bytes everywhere.
pub open spec fn same_bytes<R1: ProcessReader, R2: ProcessReader>(r1: &R1, r2: &R2) -> bool {
    forall|a: u64, l: usize| #[trigger] r1.bytes_at(a, l) == r2.bytes_at(a, l)
}

proof fn lemma_fetch_same<R1: ProcessReader, R2: ProcessReader>(r1: &R1, r2: &R2)
    requires
        same_bytes(r1, r2),
    ensures
        forall|a: int, l: int| #[trigger] fetch(r1, a, l) == fetch(r2, a, l),
{
    assert forall|a: int, l: int| #[trigger] fetch(r1, a, l) == fetch(r2, a, l) by {
        if l <= MAX_READ && 0 <= a <= u64::MAX && l >= 0 {
            assert(r1.bytes_at(a as u64, l as usize) == r2.bytes_at(a as u64, l as usize));
        }
    }
}

proof fn lemma_walk_same<R1: ProcessReader, R2: ProcessReader>(
    r1: &R1,
    r2: &R2,
    d: LayoutDescriptor,
    buf: Seq<u8>,
    low: nat,
    off: int,
    fuel: nat,
)
    requires
        forall|a: int, l: int| #[trigger] fetch(r1, a, l) == fetch(r2, a, l),
    ensures
        walk(r1, d, buf, low, off, fuel) == walk(r2, d, buf, low, off, fuel),
    decreases fuel,
{
    if fuel > 0 && frame_fits(d, buf.len(), off) {
        let prev = word_at(buf, off + d.ed_prev_execute_data);
        let func = word_at(buf, off + d.ed_func);
        assert(decode_frame(r1, d, func, word_at(buf, off + d.ed_this)) == decode_frame(
            r2,
            d,
            func,
            word_at(buf, off + d.ed_this),
        ));
        lemma_walk_same(r1, r2, d, buf, low, prev - low, (fuel - 1) as nat);
    }
}

/// Decoding is deterministic: two targets that hold the same bytes give
/// the same sample under the same descriptor.
pub proof fn lemma_sample_deterministic<R1: ProcessReader, R2: ProcessReader>(
    r1: &R1,
    r2: &R2,
    d: LayoutDescriptor,
)
    requires
        same_bytes(r1, r2),
    ensures
        sample_spec(r1, d) == sample_spec(r2, d),
{
    lemma_fetch_same(r1, r2);
    if let Ok(eg) = fetch(r1, d.executor_globals_address as int, d.eg_byte_size as int) {
        let high = word_at(eg, d.eg_vm_stack_top as int);
        let stack = word_at(eg, d.eg_vm_stack as int);
        if let Ok(header) = fetch(r1, stack as int, d.stack_byte_size as int) {
            let low = word_at(header, 0);
            if let Ok(buf) = fetch(r1, low as int, live_len(low, high) as int) {
                let cur = word_at(eg, d.eg_current_execute_data as int);
                lemma_walk_same(r1, r2, d, buf, low, cur - low, buf.len() / (d.ed_byte_size as nat));
            }
        }
    }
}

/// Attaches to the target, takes one sample and detaches again.  The
/// target is released exactly once, whatever the sample yields.
pub fn sample_attached<T: Attachable>(target: &mut T, d: &LayoutDescriptor) -> (r: Result<Trace, SampleError>)
    requires
        d.wf(),
    ensures
        final(target).detach_count() == old(target).detach_count() + 1,
        match sample_spec(old(target), *d) {
            Ok(fs) => r matches Ok(t) && t@ == fs,
            Err(e) => r == Err::<Trace, SampleError>(e),
        },
{
    let _attached = target.attach();
    let r = sample(&*target, d);
    proof {
        lemma_sample_deterministic(&*target, old(target), *d);
    }
    target.detach();
    r
}


/// The output line for a frame: `Class->name()` when it has a scope,
/// `name()` otherwise.
pub open spec fn frame_line(f: FrameView) -> Seq<char> {
    match f.scope {
        Some(c) => c + "->"@ + f.name + "()"@,
        None => f.name + "()"@,
    }
}

/// Renders a frame as one output line.
pub fn render_frame(f: &Frame) -> (r: String)
    ensures
        r@ == frame_line(f@),
{
    let mut line = match &f.scope {
        Some(c) => {
            let mut s = c.clone();
            s.append("->");
            s
        },
        None => String::new(),
    };
    line.append(f.name.as_str());
    line.append("()");
    line
}

/// Renders every frame of a trace, innermost first.
pub fn render_trace(t: &Trace) -> (r: Vec<String>)
    ensures
        r@.len() == t@.len(),
        forall|i: int| 0 <= i < r@.len() ==> #[trigger] r@[i]@ == frame_line(t@[i]),
{
    let mut out: Vec<String> = Vec::new();
    let mut i: usize = 0;
    while i < t.frames.len()
        invariant
            i <= t.frames@.len(),
            out@.len() == i,
            forall|k: int| 0 <= k < i ==> #[trigger] out@[k]@ == frame_line(t@[k]),
        decreases t.frames.len() - i,
    {
        out.push(render_frame(&t.frames[i]));
        i = i + 1;
    }
    out
}

} // verus!
