//! Filtering of the program's terminal output before it reaches clients.
//!
//! The master answers cursor-position queries itself and strips the
//! terminal-private input-mode sequences; a sequence cut across two reads is
//! held back until the next read completes or refutes it.

use vstd::prelude::*;

verus! {

/// `ESC [ 6 n`: the cursor position query.
pub open spec fn cursor_query() -> Seq<u8> {
    seq![0x1bu8, 0x5bu8, 0x36u8, 0x6eu8]
}

/// `ESC [ 1 ; 1 R`: the answer written back to the program for each query.
pub open spec fn cursor_reply() -> Seq<u8> {
    seq![0x1bu8, 0x5bu8, 0x31u8, 0x3bu8, 0x31u8, 0x52u8]
}

/// `ESC [ ? 9 0 0 1 h`: enables the win32 input mode.
pub open spec fn input_mode_on() -> Seq<u8> {
    seq![0x1bu8, 0x5bu8, 0x3fu8, 0x39u8, 0x30u8, 0x30u8, 0x31u8, 0x68u8]
}

/// `ESC [ ? 9 0 0 1 l`: disables the win32 input mode.
pub open spec fn input_mode_off() -> Seq<u8> {
    seq![0x1bu8, 0x5bu8, 0x3fu8, 0x39u8, 0x30u8, 0x30u8, 0x31u8, 0x6cu8]
}

/// `data` begins with `pattern`.
pub open spec fn begins_with(data: Seq<u8>, pattern: Seq<u8>) -> bool {
    pattern.len() <= data.len() && data.take(pattern.len() as int) == pattern
}

/// `data` is an initial part of `pattern` (possibly all of it).
pub open spec fn is_start_of(data: Seq<u8>, pattern: Seq<u8>) -> bool {
    data.len() <= pattern.len() && pattern.take(data.len() as int) == data
}

/// What filtering a stretch of bytes produces.
pub struct Scan {
    /// Bytes forwarded to the attached clients.
    pub output: Seq<u8>,
    /// Bytes written back to the program.
    pub replies: Seq<u8>,
    /// An unfinished sequence held back for the next read.
    pub pending: Seq<u8>,
}

/// The filter's result on `data`, read from left to right.
pub open spec fn scan(data: Seq<u8>) -> Scan
    decreases data.len(),
{
    if data.len() == 0 {
        Scan { output: Seq::empty(), replies: Seq::empty(), pending: Seq::empty() }
    } else if begins_with(data, cursor_query()) {
        let rest = scan(data.skip(4));
        Scan { output: rest.output, replies: cursor_reply() + rest.replies, pending: rest.pending }
    } else if begins_with(data, input_mode_on()) || begins_with(data, input_mode_off()) {
        scan(data.skip(8))
    } else if is_start_of(data, cursor_query()) || is_start_of(data, input_mode_on())
        || is_start_of(data, input_mode_off()) {
        Scan { output: Seq::empty(), replies: Seq::empty(), pending: data }
    } else {
        let rest = scan(data.skip(1));
        Scan { output: seq![data[0]] + rest.output, replies: rest.replies, pending: rest.pending }
    }
}

/// Joins the results of two consecutive stretches.
pub open spec fn then(first: Scan, second: Scan) -> Scan {
    Scan {
        output: first.output + second.output,
        replies: first.replies + second.replies,
        pending: second.pending,
    }
}

/// Filtering a stream in two pieces, where the second piece starts with what
/// the first held back, gives what filtering it in one piece gives.
pub proof fn lemma_scan_split(x: Seq<u8>, y: Seq<u8>)
    ensures
        scan(x + y) == then(scan(x), scan(scan(x).pending + y)),
    decreases x.len(),
{
    let q = cursor_query();
    let on = input_mode_on();
    let off = input_mode_off();
    let xy = x + y;
    if x.len() == 0 {
        assert(xy =~= y);
        assert(scan(x).pending + y =~= y);
        assert(scan(x).output + scan(y).output =~= scan(y).output);
        assert(scan(x).replies + scan(y).replies =~= scan(y).replies);
    } else if begins_with(x, q) {
        assert(xy.take(4) =~= x.take(4));
        assert(xy.skip(4) =~= x.skip(4) + y);
        lemma_scan_split(x.skip(4), y);
        assert(cursor_reply() + (scan(x.skip(4)).replies + scan(scan(x).pending + y).replies)
            =~= (cursor_reply() + scan(x.skip(4)).replies) + scan(scan(x).pending + y).replies);
    } else if begins_with(x, on) || begins_with(x, off) {
        assert(x.take(4) =~= x.take(8).take(4));
        assert(xy.take(4) =~= x.take(4));
        assert(xy.take(8) =~= x.take(8));
        assert(xy.skip(8) =~= x.skip(8) + y);
        assert(x.take(8)[2] == 0x3fu8);
        assert(xy.take(4)[2] != q[2]);
        lemma_scan_split(x.skip(8), y);
    } else if is_start_of(x, q) || is_start_of(x, on) || is_start_of(x, off) {
        assert(scan(x).pending + y =~= xy);
        assert(Seq::<u8>::empty() + scan(xy).output =~= scan(xy).output);
        assert(Seq::<u8>::empty() + scan(xy).replies =~= scan(xy).replies);
    } else {
        lemma_no_pattern_extends(x, y, q);
        lemma_no_pattern_extends(x, y, on);
        lemma_no_pattern_extends(x, y, off);
        assert(xy.skip(1) =~= x.skip(1) + y);
        assert(xy[0] == x[0]);
        lemma_scan_split(x.skip(1), y);
        assert(seq![x[0]] + (scan(x.skip(1)).output + scan(scan(x).pending + y).output)
            =~= (seq![x[0]] + scan(x.skip(1)).output) + scan(scan(x).pending + y).output);
    }
}

/// A nonempty `x` that neither begins with `pattern` nor is a start of it
/// keeps both properties when more bytes follow it.
proof fn lemma_no_pattern_extends(x: Seq<u8>, y: Seq<u8>, pattern: Seq<u8>)
    requires
        x.len() > 0,
        !begins_with(x, pattern),
        !is_start_of(x, pattern),
    ensures
        !begins_with(x + y, pattern),
        !is_start_of(x + y, pattern),
{
    let xy = x + y;
    if begins_with(xy, pattern) {
        if pattern.len() <= x.len() {
            assert(x.take(pattern.len() as int) =~= xy.take(pattern.len() as int));
        } else {
            assert(pattern.take(x.len() as int) =~= x);
        }
    }
    if is_start_of(xy, pattern) {
        assert(pattern.take(x.len() as int) =~= x);
    }
}


/// Filtering bytes that hold no escape character forwards them unchanged,
/// answers nothing and holds nothing back.
pub proof fn lemma_scan_plain(data: Seq<u8>)
    requires
        !data.contains(0x1bu8),
    ensures
        scan(data) == (Scan { output: data, replies: Seq::empty(), pending: Seq::empty() }),
    decreases data.len(),
{
    if data.len() == 0 {
        assert(data =~= Seq::<u8>::empty());
    } else {
        assert(data[0] != 0x1bu8) by {
            assert(data.contains(data[0]));
        }
        assert(!begins_with(data, cursor_query())) by {
            if begins_with(data, cursor_query()) {
                assert(data.take(4)[0] == data[0]);
            }
        }
        assert(!begins_with(data, input_mode_on())) by {
            if begins_with(data, input_mode_on()) {
                assert(data.take(8)[0] == data[0]);
            }
        }
        assert(!begins_with(data, input_mode_off())) by {
            if begins_with(data, input_mode_off()) {
                assert(data.take(8)[0] == data[0]);
            }
        }
        assert(!is_start_of(data, cursor_query())) by {
            if is_start_of(data, cursor_query()) {
                assert(cursor_query().take(data.len() as int)[0] == data[0]);
            }
        }
        assert(!is_start_of(data, input_mode_on())) by {
            if is_start_of(data, input_mode_on()) {
                assert(input_mode_on().take(data.len() as int)[0] == data[0]);
            }
        }
        assert(!is_start_of(data, input_mode_off())) by {
            if is_start_of(data, input_mode_off()) {
                assert(input_mode_off().take(data.len() as int)[0] == data[0]);
            }
        }
        assert(!data.skip(1).contains(0x1bu8)) by {
            if data.skip(1).contains(0x1bu8) {
                let j = choose|j: int| 0 <= j < data.skip(1).len() && data.skip(1)[j] == 0x1bu8;
                assert(data[j + 1] == 0x1bu8);
            }
        }
        lemma_scan_plain(data.skip(1));
        assert(seq![data[0]] + data.skip(1) =~= data);
    }
}

/// The cursor query as bytes.
fn cursor_query_bytes() -> (v: Vec<u8>)
    ensures
        v@ == cursor_query(),
{
    let v = vec![0x1bu8, 0x5bu8, 0x36u8, 0x6eu8];
    assert(v@ =~= cursor_query());
    v
}

/// The cursor reply as bytes.
fn cursor_reply_bytes() -> (v: Vec<u8>)
    ensures
        v@ == cursor_reply(),
{
    let v = vec![0x1bu8, 0x5bu8, 0x31u8, 0x3bu8, 0x31u8, 0x52u8];
    assert(v@ =~= cursor_reply());
    v
}

/// The sequence that enables the win32 input mode, as bytes.
fn input_mode_on_bytes() -> (v: Vec<u8>)
    ensures
        v@ == input_mode_on(),
{
    let v = vec![0x1bu8, 0x5bu8, 0x3fu8, 0x39u8, 0x30u8, 0x30u8, 0x31u8, 0x68u8];
    assert(v@ =~= input_mode_on());
    v
}

/// The sequence that disables the win32 input mode, as bytes.
fn input_mode_off_bytes() -> (v: Vec<u8>)
    ensures
        v@ == input_mode_off(),
{
    let v = vec![0x1bu8, 0x5bu8, 0x3fu8, 0x39u8, 0x30u8, 0x30u8, 0x31u8, 0x6cu8];
    assert(v@ =~= input_mode_off());
    v
}

/// Whether `data` from `index` on begins with `pattern`.
fn begins_with_at(data: &Vec<u8>, index: usize, pattern: &Vec<u8>) -> (r: bool)
    requires
        index <= data.len(),
    ensures
        r == begins_with(data@.skip(index as int), pattern@),
{
    let rest = data.len() - index;
    if pattern.len() > rest {
        return false;
    }
    let mut k: usize = 0;
    while k < pattern.len()
        invariant
            k <= pattern.len(),
            index + pattern.len() <= data.len(),
            forall|j: int| 0 <= j < k ==> data@[index + j] == pattern@[j],
        decreases pattern.len() - k,
    {
        if data[index + k] != pattern[k] {
            assert(data@.skip(index as int).take(pattern.len() as int)[k as int] != pattern@[k as int]);
            return false;
        }
        k += 1;
    }
    assert(data@.skip(index as int).take(pattern.len() as int) =~= pattern@);
    true
}

/// Whether `data` from `index` on is a start of `pattern`.
fn is_start_of_at(data: &Vec<u8>, index: usize, pattern: &Vec<u8>) -> (r: bool)
    requires
        index <= data.len(),
    ensures
        r == is_start_of(data@.skip(index as int), pattern@),
{
    let rest = data.len() - index;
    if rest > pattern.len() {
        return false;
    }
    let mut k: usize = 0;
    while k < rest
        invariant
            k <= rest,
            rest == data.len() - index,
            rest <= pattern.len(),
            forall|j: int| 0 <= j < k ==> data@[index + j] == pattern@[j],
        decreases rest - k,
    {
        if data[index + k] != pattern[k] {
            assert(pattern@.take(rest as int)[k as int] != data@.skip(index as int)[k as int]);
            return false;
        }
        k += 1;
    }
    assert(pattern@.take(rest as int) =~= data@.skip(index as int));
    true
}

/// The state of the output filter: the unfinished sequence held back from
/// the previous read.
pub struct TerminalOutputFilter {
    pending: Vec<u8>,
}

impl TerminalOutputFilter {
    /// The bytes held back for the next read.
    pub closed spec fn held(&self) -> Seq<u8> {
        self.pending@
    }

    /// Filters one read of the program's output. Returns the bytes to forward
    /// to the clients and appends to `replies` what is to be written back to
    /// the program; keeps an unfinished sequence at the end for the next call.
    pub fn filter(&mut self, input: &[u8], replies: &mut Vec<u8>) -> (output: Vec<u8>)
        ensures
            output@ == scan(old(self).held() + input@).output,
            final(replies)@ == old(replies)@ + scan(old(self).held() + input@).replies,
            final(self).held() == scan(old(self).held() + input@).pending,
    {
        let query = cursor_query_bytes();
        let mode_on = input_mode_on_bytes();
        let mode_off = input_mode_off_bytes();
        let mut data: Vec<u8> = Vec::new();
        std::mem::swap(&mut data, &mut self.pending);
        let mut tail = vstd::slice::slice_to_vec(input);
        data.append(&mut tail);
        let ghost whole = data@;
        let ghost start_replies = replies@;
        assert(whole.skip(0) =~= whole);

        let mut output: Vec<u8> = Vec::new();
        let mut index: usize = 0;
        while index < data.len()
            invariant
                index <= data.len(),
                data@ == whole,
                whole == old(self).held() + input@,
                start_replies == old(replies)@,
                self.pending@ == Seq::<u8>::empty(),
                query@ == cursor_query(),
                mode_on@ == input_mode_on(),
                mode_off@ == input_mode_off(),
                scan(whole).output == output@ + scan(whole.skip(index as int)).output,
                start_replies + scan(whole).replies == replies@ + scan(
                    whole.skip(index as int),
                ).replies,
                scan(whole).pending == scan(whole.skip(index as int)).pending,
            decreases data.len() - index,
        {
            let ghost rest = whole.skip(index as int);
            if begins_with_at(&data, index, &query) {
                assert(rest.skip(4) =~= whole.skip(index + 4));
                let mut reply = cursor_reply_bytes();
                let ghost before = replies@;
                replies.append(&mut reply);
                assert(before + (cursor_reply() + scan(rest.skip(4)).replies) =~= (before
                    + cursor_reply()) + scan(rest.skip(4)).replies);
                index += 4;
            } else if begins_with_at(&data, index, &mode_on) || begins_with_at(
                &data,
                index,
                &mode_off,
            ) {
                assert(rest.skip(8) =~= whole.skip(index + 8));
                index += 8;
            } else if is_start_of_at(&data, index, &query) || is_start_of_at(&data, index, &mode_on)
                || is_start_of_at(&data, index, &mode_off) {
                assert(scan(rest) == Scan { output: Seq::empty(), replies: Seq::empty(), pending: rest });
                let held = data.split_off(index);
                assert(held@ =~= rest);
                assert(output@ + Seq::<u8>::empty() =~= output@);
                assert(replies@ + Seq::<u8>::empty() =~= replies@);
                self.pending = held;
                return output;
            } else {
                let ghost before = output@;
                output.push(data[index]);
                assert(rest.skip(1) =~= whole.skip(index + 1));
                assert(before + (seq![rest[0]] + scan(rest.skip(1)).output) =~= output@ + scan(
                    rest.skip(1),
                ).output);
                index += 1;
            }
        }
        assert(whole.skip(index as int) =~= Seq::<u8>::empty());
        assert(output@ + Seq::<u8>::empty() =~= output@);
        assert(replies@ + Seq::<u8>::empty() =~= replies@);
        output
    }
}

impl Default for TerminalOutputFilter {
    /// A filter that holds nothing back.
    fn default() -> (f: Self)
        ensures
            f.held() == Seq::<u8>::empty(),
    {
        TerminalOutputFilter { pending: Vec::new() }
    }
}

} // verus!
