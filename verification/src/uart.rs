//! The receiver of the target's trace output, and the ring it fills.

use vstd::prelude::*;
use vstd::seq_lib::lemma_concat_associative;
use crate::board::{copy_ops, ring_len, Board, Op, Port};
use crate::slices::{head_mut, tail_mut};
use crate::rcc::Clocks;

verus! {

/// Number of bytes that wait in a ring of `len` bytes, when the reader has
/// consumed up to index `last` and the receiver will write at index `head`
/// next.
pub open spec fn ring_available(last: int, head: int, len: int) -> int {
    if head >= last {
        head - last
    } else {
        (len - last) + head
    }
}

/// Number of bytes that one read takes from the ring: those that wait, as
/// far as there is room for them.
pub open spec fn ring_taken(last: int, head: int, len: int, room: int) -> int {
    let waiting = ring_available(last, head, len);
    if waiting <= room {
        waiting
    } else {
        room
    }
}

/// The reader's index after one read. It goes forward by what the read
/// took, and starts over at the beginning where the waiting bytes wrap
/// round the end of the ring and the read reaches it.
pub open spec fn ring_next(last: int, head: int, len: int, room: int) -> int {
    let taken = ring_taken(last, head, len, room);
    if head < last && last + taken >= len {
        last + taken - len
    } else {
        last + taken
    }
}

/// The `n` bytes of the ring from index `last` on, wrapping round its end.
pub open spec fn ring_bytes(ring: Seq<u8>, last: int, n: int) -> Seq<u8> {
    Seq::new(
        n as nat,
        |i: int|
            if last + i < ring.len() {
                ring[last + i]
            } else {
                ring[last + i - ring.len()]
            },
    )
}

/// Copies `n` bytes of `src` from index `from` on into `dst` at index `at`.
pub fn copy_into(dst: &mut [u8], at: usize, src: &[u8], from: usize, n: usize)
    requires
        at + n <= old(dst)@.len(),
        from + n <= src@.len(),
    ensures
        final(dst)@ == old(dst)@.take(at as int) + src@.subrange(from as int, from + n) + old(
            dst,
        )@.skip(at + n),
{
    let mut i: usize = 0;
    let total = dst.len();
    let avail = src.len();
    while i < n
        invariant
            i <= n,
            at + n <= dst@.len() == total,
            dst@.len() == old(dst)@.len(),
            from + n <= src@.len() == avail,
            dst@ == old(dst)@.take(at as int) + src@.subrange(from as int, from + i) + old(
                dst,
            )@.skip(at + i),
        decreases n - i,
    {
        dst[at + i] = src[from + i];
        assert(dst@ =~= old(dst)@.take(at as int) + src@.subrange(from as int, from + i + 1)
            + old(dst)@.skip(at + i + 1));
        i += 1;
    }
    assert(dst@ =~= old(dst)@.take(at as int) + src@.subrange(from as int, from + n) + old(
        dst,
    )@.skip(at + n));
}

/// Number of bytes that one read takes from the ring before it starts over
/// at the beginning of the ring.
pub open spec fn ring_first(last: int, head: int, len: int, room: int) -> int {
    let taken = ring_taken(last, head, len, room);
    if head >= last || taken <= len - last {
        taken
    } else {
        len - last
    }
}

/// Works out what one read takes from a ring of `len` bytes: the number of
/// bytes from the reader's index on, the number of bytes from the beginning
/// of the ring, and the reader's new index.
pub fn ring_plan(last: usize, head: usize, len: usize, room: usize) -> (r: (usize, usize, usize))
    requires
        last <= len,
        head <= len,
    ensures
        r.0 == ring_first(last as int, head as int, len as int, room as int),
        r.0 + r.1 == ring_taken(last as int, head as int, len as int, room as int),
        r.2 == ring_next(last as int, head as int, len as int, room as int),
        last + r.0 <= len,
        r.1 <= head,
        r.1 > 0 ==> head < last && last + r.0 == len,
        r.2 <= len,
{
    if head == last {
        // Nothing has come in.
        (0, 0, last)
    } else if head < last {
        // The receiver has wrapped round: take from `last` to the end, then
        // from the beginning to `head`.
        let mut n1 = len - last;
        let mut n2 = head;
        let mut new_last = head;
        if n1 > room {
            n1 = room;
            n2 = 0;
            new_last = last + n1;
        } else if n1 + n2 > room {
            n2 = room - n1;
            new_last = n2;
        }
        (n1, n2, new_last)
    } else {
        // New bytes, all before the end of the ring.
        let mut n = head - last;
        if n > room {
            n = room;
        }
        (n, 0, last + n)
    }
}

/// Takes the bytes that wait in `ring` into the start of `rx`, as far as
/// there is room. Returns their number and the reader's new index.
pub fn ring_read(ring: &[u8], last: usize, head: usize, rx: &mut [u8]) -> (r: (usize, usize))
    requires
        last <= ring@.len(),
        head <= ring@.len(),
    ensures
        r.0 == ring_taken(last as int, head as int, ring@.len() as int, old(rx)@.len() as int),
        r.1 == ring_next(last as int, head as int, ring@.len() as int, old(rx)@.len() as int),
        r.1 <= ring@.len(),
        final(rx)@ == ring_bytes(ring@, last as int, r.0 as int) + old(rx)@.skip(r.0 as int),
{
    let len = ring.len();
    let room = rx.len();
    let (n1, n2, next) = ring_plan(last, head, len, room);
    copy_into(rx, 0, ring, last, n1);
    copy_into(rx, n1, ring, 0, n2);
    proof {
        let taken = n1 + n2;
        let got = rx@.take(taken as int);
        assert forall|i: int| 0 <= i < taken implies got[i] == ring_bytes(
            ring@,
            last as int,
            taken as int,
        )[i] by {
            if i < n1 {
                assert(last + i < len);
            } else {
                assert(last + i >= len);
            }
        }
        assert(rx@ =~= ring_bytes(ring@, last as int, taken as int) + old(rx)@.skip(taken as int));
    }
    (n1 + n2, next)
}

/// Trace of copying `bytes` out of a port's ring, if there are any.
pub open spec fn copied(port: Port, from: usize, bytes: Seq<u8>) -> Seq<Op> {
    if bytes.len() > 0 {
        copy_ops(port, from, bytes)
    } else {
        Seq::empty()
    }
}

/// Number of the bytes taken by one read that lie before the end of the
/// ring.
pub open spec fn bytes_before_end(port: Port, last: usize, head: usize, taken: nat) -> int {
    if head >= last || taken <= ring_len(port) - last {
        taken as int
    } else {
        ring_len(port) - last
    }
}

/// Trace of one read of a port's ring, where the receiver stood at index
/// `head` and `bytes` were taken: the receiver is asked where it stands,
/// then the bytes are copied, those up to the end of the ring first and
/// those from its beginning after them.
pub open spec fn ring_events(port: Port, last: usize, head: usize, bytes: Seq<u8>) -> Seq<Op> {
    let first = bytes_before_end(port, last, head, bytes.len());
    seq![Op::UartHead(port, head)] + copied(port, last, bytes.take(first)) + copied(
        port,
        0,
        bytes.skip(first),
    )
}

/// One read of a port's ring happened between the two traces, with room for
/// `room` bytes: the receiver stood at index `head`, `bytes` were taken,
/// and the reader's index went from `last` to `next`.
pub open spec fn ring_was_read(
    port: Port,
    last: usize,
    head: usize,
    room: nat,
    before: Seq<Op>,
    after: Seq<Op>,
    bytes: Seq<u8>,
    next: usize,
) -> bool {
    &&& head <= ring_len(port)
    &&& bytes.len() == ring_taken(last as int, head as int, ring_len(port) as int, room as int)
    &&& next == ring_next(last as int, head as int, ring_len(port) as int, room as int)
    &&& after == before + ring_events(port, last, head, bytes)
}

/// The bytes that wait in a port's ring were counted between the two
/// traces: the receiver stood at index `head`, and `n` bytes waited.
pub open spec fn ring_was_measured(
    port: Port,
    last: usize,
    head: usize,
    before: Seq<Op>,
    after: Seq<Op>,
    n: usize,
) -> bool {
    &&& head <= ring_len(port)
    &&& n == ring_available(last as int, head as int, ring_len(port) as int)
    &&& after == before.push(Op::UartHead(port, head))
}

/// Number of bytes that wait in a port's ring.
pub fn measure_ring<H: Board>(hw: &mut H, port: Port, last: usize) -> (n: usize)
    requires
        last <= ring_len(port),
    ensures
        exists|head: usize| #[trigger]
            ring_was_measured(port, last, head, old(hw).trace(), final(hw).trace(), n),
{
    let len: usize = match port {
        Port::Swo => 256,
        Port::Vcp => 512,
    };
    let head = hw.uart_dma_index(port);
    let n = if head >= last {
        head - last
    } else {
        (len - last) + head
    };
    assert(ring_was_measured(port, last, head, old(hw).trace(), hw.trace(), n));
    n
}

/// Copies `n` bytes of a port's ring, from index `from` on, into `rx` at
/// index `at`, if `n` is not 0.
fn copy_part<H: Board>(hw: &mut H, port: Port, from: usize, rx: &mut [u8], at: usize, n: usize)
    requires
        from + n <= ring_len(port),
        at + n <= old(rx)@.len(),
    ensures
        final(rx)@.len() == old(rx)@.len(),
        final(rx)@.take(at as int) == old(rx)@.take(at as int),
        final(rx)@.skip(at + n) == old(rx)@.skip(at + n),
        final(hw).trace() == old(hw).trace() + copied(
            port,
            from,
            final(rx)@.subrange(at as int, at + n),
        ),
{
    if n > 0 {
        let rest = tail_mut(rx, at);
        let part = head_mut(rest, n);
        hw.uart_copy(port, from, part);
        let ghost got = part@;
        proof {
            assert(rx@.subrange(at as int, at + n) =~= got);
            assert(rx@.take(at as int) =~= old(rx)@.take(at as int));
            assert(rx@.skip(at + n) =~= old(rx)@.skip(at + n));
        }
    } else {
        assert(hw.trace() =~= old(hw).trace() + Seq::<Op>::empty());
    }
}

/// A port's ring was read between the two traces, with room for `room`
/// bytes: `bytes` were taken, and the reader's index went from `last` to
/// `next`.
pub open spec fn ring_read_between(
    port: Port,
    last: usize,
    room: nat,
    before: Seq<Op>,
    after: Seq<Op>,
    bytes: Seq<u8>,
    next: usize,
) -> bool {
    exists|head: usize| #[trigger] ring_was_read(port, last, head, room, before, after, bytes, next)
}

/// Takes the bytes that wait in a port's ring into the start of `rx`, as far
/// as there is room. Returns their number and the reader's new index.
pub fn read_ring<H: Board>(hw: &mut H, port: Port, last: usize, rx: &mut [u8]) -> (r: (
    usize,
    usize,
))
    requires
        last <= ring_len(port),
    ensures
        final(rx)@.len() == old(rx)@.len(),
        r.0 <= old(rx)@.len(),
        r.1 <= ring_len(port),
        final(rx)@.skip(r.0 as int) == old(rx)@.skip(r.0 as int),
        ring_read_between(
            port,
            last,
            old(rx)@.len(),
            old(hw).trace(),
            final(hw).trace(),
            final(rx)@.take(r.0 as int),
            r.1,
        ),
{
    let len: usize = match port {
        Port::Swo => 256,
        Port::Vcp => 512,
    };
    let room = rx.len();
    let head = hw.uart_dma_index(port);
    let (n1, n2, next) = ring_plan(last, head, len, room);
    let ghost asked = hw.trace();
    copy_part(hw, port, last, rx, 0, n1);
    let ghost held = rx@;
    let ghost mid = hw.trace();
    copy_part(hw, port, 0, rx, n1, n2);
    let n = n1 + n2;
    proof {
        lemma_read_in_two_parts(
            port,
            last,
            head,
            old(hw).trace(),
            asked,
            mid,
            hw.trace(),
            old(rx)@,
            held,
            rx@,
            n1,
            n2,
        );
        assert(ring_was_read(
            port,
            last,
            head,
            old(rx)@.len(),
            old(hw).trace(),
            hw.trace(),
            rx@.take(n as int),
            next,
        ));
        assert(ring_read_between(
            port,
            last,
            old(rx)@.len(),
            old(hw).trace(),
            hw.trace(),
            rx@.take(n as int),
            next,
        ));
    }
    (n, next)
}

/// Two copies, one after the other, make up one read of the ring.
proof fn lemma_read_in_two_parts(
    port: Port,
    last: usize,
    head: usize,
    t0: Seq<Op>,
    asked: Seq<Op>,
    mid: Seq<Op>,
    after: Seq<Op>,
    rx0: Seq<u8>,
    held: Seq<u8>,
    rx: Seq<u8>,
    n1: usize,
    n2: usize,
)
    requires
        n1 + n2 <= rx0.len() == held.len() == rx.len(),
        n1 == bytes_before_end(port, last, head, (n1 + n2) as nat),
        asked == t0.push(Op::UartHead(port, head)),
        mid == asked + copied(port, last, held.subrange(0, n1 as int)),
        after == mid + copied(port, 0, rx.subrange(n1 as int, n1 + n2)),
        held.skip(n1 as int) == rx0.skip(n1 as int),
        rx.take(n1 as int) == held.take(n1 as int),
        rx.skip(n1 + n2) == held.skip(n1 + n2),
    ensures
        after == t0 + ring_events(port, last, head, rx.take(n1 + n2)),
        rx.skip(n1 + n2) == rx0.skip(n1 + n2),
{
    let bytes = rx.take(n1 + n2);
    let ask = seq![Op::UartHead(port, head)];
    let first = copied(port, last, held.subrange(0, n1 as int));
    let second = copied(port, 0, rx.subrange(n1 as int, n1 + n2));
    assert(bytes.take(n1 as int) =~= held.subrange(0, n1 as int)) by {
        assert(bytes.take(n1 as int) =~= rx.take(n1 as int));
        assert(held.take(n1 as int) =~= held.subrange(0, n1 as int));
    }
    assert(bytes.skip(n1 as int) =~= rx.subrange(n1 as int, n1 + n2));
    assert(rx.skip(n1 + n2) =~= rx0.skip(n1 + n2)) by {
        assert(held.skip(n1 + n2) =~= held.skip(n1 as int).skip(n2 as int));
        assert(rx0.skip(n1 + n2) =~= rx0.skip(n1 as int).skip(n2 as int));
    }
    assert(asked =~= t0 + ask);
    lemma_concat_associative(t0, ask, first);
    lemma_concat_associative(t0, ask + first, second);
}

/// The divider that brings a receiver clocked at `fck` Hz closest to `baud`
/// from below the rate: twice the clock over the rate, rounded down to an
/// even number, and no less than 16.
pub open spec fn baud_divider(fck: u32, baud: u32) -> int {
    let div = (2 * fck) / (baud as int);
    let even = div - div % 2;
    if even < 16 {
        16
    } else {
        even
    }
}

/// What goes into the baud rate register for a divider, with eightfold
/// oversampling: the divider's low four bits shifted down by one.
pub open spec fn baud_register(div: int) -> int {
    (div / 16) * 16 + (div % 16) / 2
}

proof fn lemma_even(div: u32)
    by (bit_vector)
    ensures
        div & 0xffff_fffe == div - div % 2,
{
}

proof fn lemma_register(div: u32)
    by (bit_vector)
    ensures
        (div & 0xffff_fff0) | ((div & 0xf) >> 1) == (div / 16) * 16 + (div % 16) / 2,
{
}

/// Works out the divider for `baud` and what goes into the baud rate
/// register for it.
pub fn baud_settings(fck: u32, baud: u32) -> (r: (u32, u32))
    requires
        2 * fck <= u32::MAX,
        baud > 0,
    ensures
        r.0 == baud_divider(fck, baud),
        r.1 == baud_register(baud_divider(fck, baud)),
        r.0 >= 16,
{
    let mut div: u32 = (2 * fck) / baud;
    proof {
        lemma_even(div);
    }
    div &= 0xffff_fffe;
    if div < 16 {
        div = 16;
    }
    proof {
        lemma_register(div);
    }
    let brr = (div & 0xffff_fff0) | ((div & 0xf) >> 1);
    (div, brr)
}

/// The receiver of the target's trace output.
pub struct UART {
    /// Index in the ring up to which the bytes have been read.
    pub last_idx: usize,
    /// Frequency of the clock that feeds the receiver, in Hz.
    pub fck: u32,
}

impl UART {
    /// Index in the ring up to which the bytes have been read.
    pub open spec fn last_idx(&self) -> usize {
        self.last_idx
    }

    /// Frequency of the clock that feeds the receiver, in Hz.
    pub open spec fn fck(&self) -> u32 {
        self.fck
    }

    /// The reader's index is within the ring, and twice the clock fits in 32
    /// bits.
    pub open spec fn wf(&self) -> bool {
        &&& self.last_idx() <= ring_len(Port::Swo)
        &&& 2 * self.fck() <= u32::MAX
    }

    /// A receiver that has read nothing, fed by a clock of 72 MHz.
    pub fn new() -> (uart: Self)
        ensures
            uart.last_idx() == 0,
            uart.fck() == 72_000_000,
            uart.wf(),
    {
        UART { last_idx: 0, fck: 72_000_000 }
    }

    /// Takes the frequency of the receiver's clock from the clocks.
    pub fn setup(&mut self, clocks: &Clocks)
        requires
            2 * clocks.spec_pclk2() <= u32::MAX,
        ensures
            *final(self) == (UART { fck: clocks.spec_pclk2() as u32, ..*old(self) }),
    {
        self.fck = clocks.pclk2();
    }

    /// Starts reception into the ring and forgets what was read so far.
    pub fn start<H: Board>(&mut self, hw: &mut H)
        ensures
            *final(self) == (UART { last_idx: 0, ..*old(self) }),
            final(hw).trace() == old(hw).trace().push(Op::UartStart(Port::Swo)),
    {
        self.last_idx = 0;
        hw.uart_start(Port::Swo);
    }

    /// Ends reception.
    pub fn stop<H: Board>(&self, hw: &mut H)
        ensures
            final(hw).trace() == old(hw).trace().push(Op::UartStop(Port::Swo)),
    {
        hw.uart_stop(Port::Swo);
    }

    /// Whether the receiver is enabled.
    pub fn is_active<H: Board>(&self, hw: &mut H) -> (active: bool)
        ensures
            final(hw).trace() == old(hw).trace().push(Op::UartActive(Port::Swo, active)),
    {
        hw.uart_is_active(Port::Swo)
    }

    /// Length of the ring.
    pub fn buffer_len(&self) -> (len: usize)
        ensures
            len == ring_len(Port::Swo),
    {
        256
    }

    /// The baud rate that the receiver has after `baud` was asked for. A
    /// rate of 0 cannot be set, and is answered by 0.
    pub open spec fn baud_set(&self, baud: u32) -> int {
        if baud == 0 {
            0
        } else {
            (2 * self.fck) / baud_divider(self.fck, baud)
        }
    }

    /// Trace of asking for a baud rate: the divider goes into the baud rate
    /// register, but for a rate of 0, which leaves the receiver as it was.
    pub open spec fn baud_ops(&self, baud: u32) -> Seq<Op> {
        if baud == 0 {
            Seq::empty()
        } else {
            seq![Op::UartDivider(Port::Swo, baud_register(baud_divider(self.fck, baud)) as u32)]
        }
    }

    /// Asks for a baud rate and returns the one that was set: the divider is
    /// even and at least 16, so the rate set is seldom the one asked for.
    /// A rate of 0 cannot be set: the receiver stays as it was, and 0 is
    /// returned.
    pub fn set_baud<H: Board>(&self, hw: &mut H, baud: u32) -> (actual: u32)
        requires
            2 * self.fck() <= u32::MAX,
        ensures
            actual == self.baud_set(baud),
            final(hw).trace() == old(hw).trace() + self.baud_ops(baud),
    {
        if baud == 0 {
            assert(hw.trace() =~= old(hw).trace() + self.baud_ops(baud));
            return 0;
        }
        let (div, brr) = baud_settings(self.fck, baud);
        hw.uart_set_divider(Port::Swo, brr);
        assert(hw.trace() =~= old(hw).trace() + self.baud_ops(baud));
        (2 * self.fck) / div
    }

    /// Number of bytes that wait in the ring.
    pub fn bytes_available<H: Board>(&self, hw: &mut H) -> (n: usize)
        requires
            self.last_idx() <= ring_len(Port::Swo),
        ensures
            n <= ring_len(Port::Swo),
            exists|head: usize| #[trigger]
                ring_was_measured(
                    Port::Swo,
                    self.last_idx,
                    head,
                    old(hw).trace(),
                    final(hw).trace(),
                    n,
                ),
    {
        measure_ring(hw, Port::Swo, self.last_idx)
    }

    /// Takes the bytes that wait in the ring into the start of `rx`, as far
    /// as there is room, and returns their number. What does not fit stays
    /// for the next read, unless the receiver overwrites it first, which
    /// goes unnoticed.
    pub fn read<H: Board>(&mut self, hw: &mut H, rx: &mut [u8]) -> (n: usize)
        requires
            old(self).last_idx() <= ring_len(Port::Swo),
        ensures
            final(self).fck == old(self).fck,
            final(self).last_idx <= ring_len(Port::Swo),
            final(rx)@.len() == old(rx)@.len(),
            n <= old(rx)@.len(),
            final(rx)@.skip(n as int) == old(rx)@.skip(n as int),
            ring_read_between(
                Port::Swo,
                old(self).last_idx,
                old(rx)@.len(),
                old(hw).trace(),
                final(hw).trace(),
                final(rx)@.take(n as int),
                final(self).last_idx,
            ),
    {
        let (n, next) = read_ring(hw, Port::Swo, self.last_idx, rx);
        self.last_idx = next;
        n
    }
}

} // verus!
