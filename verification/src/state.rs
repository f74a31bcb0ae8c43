use crate::medium::{overwrite, window, Stream};
use vstd::prelude::*;

verus! {

/// Whether the ranges `[a, a + alen)` and `[b, b + blen)` do not overlap.
pub open spec fn apart(a: nat, alen: nat, b: nat, blen: nat) -> bool {
    a + alen <= b || b + blen <= a
}

/// Whether ranges of length `len` at the given offsets are pairwise apart.
pub open spec fn spaced(offsets: Seq<nat>, len: nat) -> bool {
    forall|i: int, j: int|
        0 <= i < j < offsets.len() ==> apart(
            #[trigger] offsets[i],
            len,
            #[trigger] offsets[j],
            len,
        )
}

/// The bytes `bytes` holds after `data` has been stored at each of
/// `offsets`, in their order.
pub open spec fn patch(bytes: Seq<u8>, offsets: Seq<nat>, data: Seq<u8>) -> Seq<u8>
    decreases offsets.len(),
{
    if offsets.len() == 0 {
        bytes
    } else {
        overwrite(patch(bytes, offsets.drop_last(), data), offsets.last(), data)
    }
}

/// What is stored shows at the offset where it was stored.
pub proof fn law_overwrite_shows(base: Seq<u8>, at: nat, data: Seq<u8>)
    ensures
        window(overwrite(base, at, data), at, data.len()) == data,
{
    assert(window(overwrite(base, at, data), at, data.len()) =~= data);
}

/// Storing leaves every window apart from the stored range as it was.
pub proof fn law_overwrite_is_local(base: Seq<u8>, at: nat, data: Seq<u8>, off: nat, len: nat)
    requires
        apart(at, data.len(), off, len),
    ensures
        window(overwrite(base, at, data), off, len) == window(base, off, len),
{
    assert(window(overwrite(base, at, data), off, len) =~= window(base, off, len));
}

/// Patching leaves every window apart from all patched ranges as it was.
pub proof fn law_patch_is_local(
    bytes: Seq<u8>,
    offsets: Seq<nat>,
    data: Seq<u8>,
    off: nat,
    len: nat,
)
    requires
        forall|k: int|
            0 <= k < offsets.len() ==> apart(#[trigger] offsets[k], data.len(), off, len),
    ensures
        window(patch(bytes, offsets, data), off, len) == window(bytes, off, len),
    decreases offsets.len(),
{
    if offsets.len() > 0 {
        let rest = offsets.drop_last();
        assert forall|k: int| 0 <= k < rest.len() implies apart(
            #[trigger] rest[k],
            data.len(),
            off,
            len,
        ) by {
            assert(rest[k] == offsets[k]);
        }
        law_patch_is_local(bytes, rest, data, off, len);
        assert(offsets.last() == offsets[offsets.len() - 1]);
        law_overwrite_is_local(patch(bytes, rest, data), offsets.last(), data, off, len);
    }
}

/// After patching at offsets whose ranges are pairwise apart, the data
/// shows at every one of them.
pub proof fn law_patch_reaches_every_offset(
    bytes: Seq<u8>,
    offsets: Seq<nat>,
    data: Seq<u8>,
    k: int,
)
    requires
        spaced(offsets, data.len()),
        0 <= k < offsets.len(),
    ensures
        window(patch(bytes, offsets, data), offsets[k], data.len()) == data,
    decreases offsets.len(),
{
    let rest = offsets.drop_last();
    let last = offsets.len() - 1;
    if k == last {
        law_overwrite_shows(patch(bytes, rest, data), offsets.last(), data);
    } else {
        assert forall|i: int, j: int| 0 <= i < j < rest.len() implies apart(
            #[trigger] rest[i],
            data.len(),
            #[trigger] rest[j],
            data.len(),
        ) by {
            assert(rest[i] == offsets[i] && rest[j] == offsets[j]);
        }
        law_patch_reaches_every_offset(bytes, rest, data, k);
        assert(rest[k] == offsets[k]);
        assert(apart(offsets[k], data.len(), offsets[last], data.len()));
        law_overwrite_is_local(
            patch(bytes, rest, data),
            offsets.last(),
            data,
            offsets[k],
            data.len(),
        );
    }
}

/// The byte that `bytes` shows at offset `i`: zero past its end.
pub open spec fn byte_at(bytes: Seq<u8>, i: int) -> u8 {
    if 0 <= i < bytes.len() {
        bytes[i]
    } else {
        0u8
    }
}

/// Whether offset `i` lies in one of the ranges of length `len` at `offsets`.
pub open spec fn covered(offsets: Seq<nat>, len: nat, i: int) -> bool {
    exists|k: int| 0 <= k < offsets.len() && #[trigger] offsets[k] <= i < offsets[k] + len
}

/// The largest end of the ranges of length `len` at `offsets`.
pub open spec fn reach(offsets: Seq<nat>, len: nat) -> nat
    decreases offsets.len(),
{
    if offsets.len() == 0 {
        0
    } else if reach(offsets.drop_last(), len) >= offsets.last() + len {
        reach(offsets.drop_last(), len)
    } else {
        offsets.last() + len
    }
}

/// Patching grows the bytes up to the largest end of a patched range, and no
/// further.
pub proof fn law_patch_len(bytes: Seq<u8>, offsets: Seq<nat>, data: Seq<u8>)
    ensures
        patch(bytes, offsets, data).len() == if data.len() == 0 || bytes.len() >= reach(
            offsets,
            data.len(),
        ) {
            bytes.len()
        } else {
            reach(offsets, data.len())
        },
    decreases offsets.len(),
{
    if offsets.len() > 0 {
        law_patch_len(bytes, offsets.drop_last(), data);
    }
}

proof fn lemma_overwrite_elsewhere(base: Seq<u8>, at: nat, data: Seq<u8>, i: int)
    requires
        !(at <= i < at + data.len()),
    ensures
        byte_at(overwrite(base, at, data), i) == byte_at(base, i),
{
}

proof fn lemma_cover_splits(offsets: Seq<nat>, len: nat, i: int)
    requires
        offsets.len() > 0,
    ensures
        covered(offsets, len, i) <==> (offsets.last() <= i < offsets.last() + len) || covered(
            offsets.drop_last(),
            len,
            i,
        ),
{
    let rest = offsets.drop_last();
    if covered(offsets, len, i) {
        let k = choose|k: int|
            0 <= k < offsets.len() && #[trigger] offsets[k] <= i < offsets[k] + len;
        if k < rest.len() {
            assert(rest[k] == offsets[k]);
        }
    }
    if covered(rest, len, i) {
        let k = choose|k: int| 0 <= k < rest.len() && #[trigger] rest[k] <= i < rest[k] + len;
        assert(offsets[k] == rest[k]);
    }
    if offsets.last() <= i < offsets.last() + len {
        assert(offsets[offsets.len() - 1] == offsets.last());
    }
}

/// Patching leaves every byte outside the patched ranges as it was.
pub proof fn law_patch_keeps_uncovered(bytes: Seq<u8>, offsets: Seq<nat>, data: Seq<u8>, i: int)
    requires
        !covered(offsets, data.len(), i),
    ensures
        byte_at(patch(bytes, offsets, data), i) == byte_at(bytes, i),
    decreases offsets.len(),
{
    if offsets.len() > 0 {
        lemma_cover_splits(offsets, data.len(), i);
        law_patch_keeps_uncovered(bytes, offsets.drop_last(), data, i);
        lemma_overwrite_elsewhere(patch(bytes, offsets.drop_last(), data), offsets.last(), data, i);
    }
}

/// What patching leaves inside the patched ranges does not depend on what
/// was there before.
pub proof fn law_patch_decides_covered(
    first: Seq<u8>,
    second: Seq<u8>,
    offsets: Seq<nat>,
    data: Seq<u8>,
    i: int,
)
    requires
        covered(offsets, data.len(), i),
    ensures
        byte_at(patch(first, offsets, data), i) == byte_at(patch(second, offsets, data), i),
    decreases offsets.len(),
{
    lemma_cover_splits(offsets, data.len(), i);
    let rest = offsets.drop_last();
    if !(offsets.last() <= i < offsets.last() + data.len()) {
        law_patch_decides_covered(first, second, rest, data, i);
        lemma_overwrite_elsewhere(patch(first, rest, data), offsets.last(), data, i);
        lemma_overwrite_elsewhere(patch(second, rest, data), offsets.last(), data, i);
    }
}

/// Patching the same offsets a second time, with data of the same length,
/// leaves the bytes as if only the second patch had been made: nothing of
/// the first data remains.
pub proof fn law_patch_again(bytes: Seq<u8>, offsets: Seq<nat>, first: Seq<u8>, second: Seq<u8>)
    requires
        first.len() == second.len(),
    ensures
        patch(patch(bytes, offsets, first), offsets, second) == patch(bytes, offsets, second),
{
    let once = patch(bytes, offsets, first);
    let twice = patch(once, offsets, second);
    let only = patch(bytes, offsets, second);
    law_patch_len(bytes, offsets, first);
    law_patch_len(once, offsets, second);
    law_patch_len(bytes, offsets, second);
    assert(twice.len() == only.len());
    assert forall|i: int| 0 <= i < twice.len() implies twice[i] == only[i] by {
        if covered(offsets, second.len(), i) {
            law_patch_decides_covered(once, bytes, offsets, second, i);
        } else {
            law_patch_keeps_uncovered(once, offsets, second, i);
            law_patch_keeps_uncovered(bytes, offsets, first, i);
            law_patch_keeps_uncovered(bytes, offsets, second, i);
        }
        assert(twice[i] == byte_at(twice, i));
        assert(only[i] == byte_at(only, i));
    }
    assert(twice =~= only);
}

/// What a writer is, as far as its callers can tell: the state of its
/// medium, the table of slots, and the padding byte.
///
/// Slot `s` holds in `slots[s]` the offsets of the placeholders written for
/// it, oldest first, and in `widths[s]` the number of bytes that every value
/// of the slot is rendered in.
pub struct State {
    pub stream: Stream,
    pub slots: Seq<Seq<nat>>,
    pub widths: Seq<nat>,
    pub padding: u8,
}

impl State {
    /// A writer that has just been made over a medium in the state `stream`.
    pub open spec fn fresh(stream: Stream) -> State {
        State { stream: stream, slots: Seq::empty(), widths: Seq::empty(), padding: 0 }
    }

    /// Whether slot `s` exists and has a placeholder number `k`.
    pub open spec fn has(self, s: int, k: int) -> bool {
        0 <= s < self.slots.len() && 0 <= k < self.slots[s].len()
    }

    /// The invariant of a writer that is used as intended: each slot has its
    /// width, every placeholder lies before the write position, and no two
    /// placeholders overlap.
    pub open spec fn wf(self) -> bool {
        &&& self.widths.len() == self.slots.len()
        &&& forall|s: int, k: int| #[trigger]
            self.has(s, k) ==> self.slots[s][k] + self.widths[s] <= self.stream.pos
        &&& forall|s: int, k: int, t: int, j: int|
            #[trigger] self.has(s, k) && #[trigger] self.has(t, j) && (s != t || k != j) ==> apart(
                self.slots[s][k],
                self.widths[s],
                self.slots[t][j],
                self.widths[t],
            )
    }

    /// Whether every placeholder of slot `s`, taken to be `width` bytes
    /// long, ends at or before `limit`.
    pub open spec fn within(self, s: int, width: nat, limit: u64) -> bool {
        forall|k: int|
            0 <= k < self.slots[s].len() ==> #[trigger] self.slots[s][k] + width <= limit
    }

    /// The bytes that the medium shows where placeholder `k` of slot `s` was
    /// written.
    pub open spec fn shown(self, s: int, k: int) -> Seq<u8> {
        window(self.stream.bytes, self.slots[s][k], self.widths[s])
    }

    /// The state after `data` has been written at the current position.
    pub open spec fn written(self, data: Seq<u8>) -> State {
        State { stream: self.stream.write(data), ..self }
    }

    /// The state after the padding byte has been set to `byte`.
    pub open spec fn padded_with(self, byte: u8) -> State {
        State { padding: byte, ..self }
    }

    /// The state after a slot of the width `width` has been opened.
    pub open spec fn opened(self, width: nat) -> State {
        State {
            slots: self.slots.push(Seq::empty()),
            widths: self.widths.push(width),
            ..self
        }
    }

    /// The state after `data` has been written at the current position as a
    /// placeholder for slot `s`.
    pub open spec fn marked(self, s: int, data: Seq<u8>) -> State {
        State {
            stream: self.stream.write(data),
            slots: self.slots.update(s, self.slots[s].push(self.stream.pos)),
            ..self
        }
    }

    /// The state after every placeholder of slot `s` has been overwritten
    /// with `data`, oldest first, and the position has been put back.
    pub open spec fn resolved(self, s: int, data: Seq<u8>) -> State {
        State {
            stream: Stream {
                bytes: patch(self.stream.bytes, self.slots[s], data),
                pos: self.stream.pos,
            },
            ..self
        }
    }
}

/// `count` copies of `byte`.
pub open spec fn run_of(byte: u8, count: nat) -> Seq<u8> {
    Seq::new(count, |i: int| byte)
}

/// The number of bytes from position `p` to the next multiple of `n`.
pub open spec fn padding_to(p: nat, n: nat) -> nat {
    ((n - p % n) % (n as int)) as nat
}

/// A fresh writer is well-formed.
pub proof fn law_fresh_is_wf(stream: Stream)
    ensures
        State::fresh(stream).wf(),
{
}

/// A write keeps a well-formed writer well-formed and changes nothing that
/// any placeholder shows.
pub proof fn law_write_keeps_placeholders(st: State, data: Seq<u8>)
    requires
        st.wf(),
    ensures
        st.written(data).wf(),
        forall|s: int, k: int| #[trigger]
            st.has(s, k) ==> st.written(data).shown(s, k) == st.shown(s, k),
{
    let after = st.written(data);
    assert forall|s: int, k: int| #[trigger] after.has(s, k) implies after.slots[s][k]
        + after.widths[s] <= after.stream.pos by {
        assert(st.has(s, k));
    }
    assert forall|s: int, k: int, t: int, j: int|
        #[trigger] after.has(s, k) && #[trigger] after.has(t, j) && (s != t
            || k != j) implies apart(
        after.slots[s][k],
        after.widths[s],
        after.slots[t][j],
        after.widths[t],
    ) by {
        assert(st.has(s, k) && st.has(t, j));
    }
    assert forall|s: int, k: int| #[trigger] st.has(s, k) implies after.shown(s, k) == st.shown(
        s,
        k,
    ) by {
        crate::medium::law_write_is_local(st.stream, data, st.slots[s][k], st.widths[s]);
    }
}

/// Opening a slot keeps a well-formed writer well-formed and changes nothing
/// that any placeholder shows.
pub proof fn law_open_keeps_placeholders(st: State, width: nat)
    requires
        st.wf(),
    ensures
        st.opened(width).wf(),
        forall|s: int, k: int| #[trigger]
            st.has(s, k) ==> st.opened(width).has(s, k) && st.opened(width).shown(s, k)
                == st.shown(s, k),
{
    let after = st.opened(width);
    assert forall|s: int, k: int| #[trigger] after.has(s, k) implies st.has(s, k) by {
        if s == st.slots.len() {
            assert(after.slots[s] =~= Seq::<nat>::empty());
        }
    }
    assert forall|s: int, k: int| #[trigger] after.has(s, k) implies after.slots[s][k]
        + after.widths[s] <= after.stream.pos by {
        assert(st.has(s, k));
    }
    assert forall|s: int, k: int, t: int, j: int|
        #[trigger] after.has(s, k) && #[trigger] after.has(t, j) && (s != t
            || k != j) implies apart(
        after.slots[s][k],
        after.widths[s],
        after.slots[t][j],
        after.widths[t],
    ) by {
        assert(st.has(s, k) && st.has(t, j));
    }
}

/// Writing a placeholder for a slot of the data's width keeps a well-formed
/// writer well-formed. The new placeholder shows the data, and every older
/// placeholder shows what it showed.
pub proof fn law_mark_keeps_placeholders(st: State, s: int, data: Seq<u8>)
    requires
        st.wf(),
        0 <= s < st.slots.len(),
        st.widths[s] == data.len(),
    ensures
        st.marked(s, data).wf(),
        st.marked(s, data).has(s, st.slots[s].len() as int),
        st.marked(s, data).shown(s, st.slots[s].len() as int) == data,
        forall|t: int, j: int| #[trigger]
            st.has(t, j) ==> st.marked(s, data).has(t, j) && st.marked(s, data).shown(t, j)
                == st.shown(t, j),
{
    let after = st.marked(s, data);
    let new = st.slots[s].len() as int;
    assert forall|t: int, j: int| #[trigger] after.has(t, j) implies (st.has(t, j)
        && after.slots[t][j] == st.slots[t][j]) || (t == s && j == new && after.slots[t][j]
        == st.stream.pos) by {}
    assert forall|t: int, j: int| #[trigger] after.has(t, j) implies after.slots[t][j]
        + after.widths[t] <= after.stream.pos by {
        if !(t == s && j == new) {
            assert(st.has(t, j));
        }
    }
    assert forall|t: int, j: int, u: int, i: int|
        #[trigger] after.has(t, j) && #[trigger] after.has(u, i) && (t != u
            || j != i) implies apart(
        after.slots[t][j],
        after.widths[t],
        after.slots[u][i],
        after.widths[u],
    ) by {
        if t == s && j == new {
            assert(st.has(u, i));
        } else if u == s && i == new {
            assert(st.has(t, j));
        } else {
            assert(st.has(t, j) && st.has(u, i));
        }
    }
    crate::medium::law_write_is_local(st.stream, data, 0, 0);
    assert forall|t: int, j: int| #[trigger] st.has(t, j) implies after.has(t, j) && after.shown(
        t,
        j,
    ) == st.shown(t, j) by {
        crate::medium::law_write_is_local(st.stream, data, st.slots[t][j], st.widths[t]);
    }
}

/// Resolving a slot with data of its width keeps a well-formed writer
/// well-formed. Every placeholder of the slot then shows the data, and every
/// placeholder of another slot shows what it showed.
pub proof fn law_resolve_patches_every_placeholder(st: State, s: int, data: Seq<u8>)
    requires
        st.wf(),
        0 <= s < st.slots.len(),
        st.widths[s] == data.len(),
    ensures
        st.resolved(s, data).wf(),
        forall|k: int| #[trigger]
            st.has(s, k) ==> st.resolved(s, data).shown(s, k) == data,
        forall|t: int, j: int| #[trigger]
            st.has(t, j) && t != s ==> st.resolved(s, data).shown(t, j) == st.shown(t, j),
{
    let after = st.resolved(s, data);
    let offsets = st.slots[s];
    assert forall|t: int, j: int| #[trigger] after.has(t, j) implies after.slots[t][j]
        + after.widths[t] <= after.stream.pos by {
        assert(st.has(t, j));
    }
    assert forall|t: int, j: int, u: int, i: int|
        #[trigger] after.has(t, j) && #[trigger] after.has(u, i) && (t != u
            || j != i) implies apart(
        after.slots[t][j],
        after.widths[t],
        after.slots[u][i],
        after.widths[u],
    ) by {
        assert(st.has(t, j) && st.has(u, i));
    }
    assert forall|i: int, j: int| 0 <= i < j < offsets.len() implies apart(
        #[trigger] offsets[i],
        data.len(),
        #[trigger] offsets[j],
        data.len(),
    ) by {
        assert(st.has(s, i) && st.has(s, j));
    }
    assert forall|k: int| #[trigger] st.has(s, k) implies after.shown(s, k) == data by {
        law_patch_reaches_every_offset(st.stream.bytes, offsets, data, k);
    }
    assert forall|t: int, j: int| #[trigger] st.has(t, j) && t != s implies after.shown(t, j)
        == st.shown(t, j) by {
        assert forall|k: int| 0 <= k < offsets.len() implies apart(
            #[trigger] offsets[k],
            data.len(),
            st.slots[t][j],
            st.widths[t],
        ) by {
            assert(st.has(s, k));
        }
        law_patch_is_local(st.stream.bytes, offsets, data, st.slots[t][j], st.widths[t]);
    }
}

/// Resolving a slot a second time leaves the writer as if only the second
/// resolution had taken place: no trace of the first value remains.
pub proof fn law_resolve_again(st: State, s: int, first: Seq<u8>, second: Seq<u8>)
    requires
        first.len() == second.len(),
    ensures
        st.resolved(s, first).resolved(s, second) == st.resolved(s, second),
{
    law_patch_again(st.stream.bytes, st.slots[s], first, second);
}

/// One change that an operation of a writer makes to its state.
pub enum Step {
    /// Data is written at the current position.
    Write(Seq<u8>),
    /// The padding byte is changed.
    Pad(u8),
    /// A slot of the given width is opened.
    Open(nat),
    /// A placeholder holding the given data is written for a slot.
    Mark(int, Seq<u8>),
    /// A slot is resolved to the given data.
    Resolve(int, Seq<u8>),
}

impl Step {
    /// Whether the step resolves slot `s`.
    pub open spec fn resolves(self, s: int) -> bool {
        self matches Step::Resolve(t, _) && t == s
    }
}

impl State {
    /// Whether `step` can be taken from this state: a placeholder or a final
    /// value belongs to a slot that exists and has the width of the slot.
    pub open spec fn allows(self, step: Step) -> bool {
        match step {
            Step::Mark(s, data) => 0 <= s < self.slots.len() && self.widths[s] == data.len(),
            Step::Resolve(s, data) => 0 <= s < self.slots.len() && self.widths[s] == data.len(),
            _ => true,
        }
    }

    /// The state after `step`.
    pub open spec fn step(self, step: Step) -> State {
        match step {
            Step::Write(data) => self.written(data),
            Step::Pad(byte) => self.padded_with(byte),
            Step::Open(width) => self.opened(width),
            Step::Mark(s, data) => self.marked(s, data),
            Step::Resolve(s, data) => self.resolved(s, data),
        }
    }

    /// The state after all of `steps`, first step first.
    pub open spec fn run(self, steps: Seq<Step>) -> State
        decreases steps.len(),
    {
        if steps.len() == 0 {
            self
        } else {
            self.run(steps.drop_last()).step(steps.last())
        }
    }

    /// Whether each of `steps` can be taken from the state that the steps
    /// before it lead to.
    pub open spec fn admits(self, steps: Seq<Step>) -> bool
        decreases steps.len(),
    {
        steps.len() == 0 || (self.admits(steps.drop_last()) && self.run(steps.drop_last()).allows(
            steps.last(),
        ))
    }
}

/// Every step keeps a well-formed writer well-formed, and changes what a
/// placeholder shows only where it resolves the placeholder's slot.
pub proof fn law_step_keeps_placeholders(st: State, step: Step, s: int, k: int)
    requires
        st.wf(),
        st.allows(step),
        st.has(s, k),
    ensures
        st.step(step).wf(),
        st.step(step).has(s, k),
        !step.resolves(s) ==> st.step(step).shown(s, k) == st.shown(s, k),
{
    match step {
        Step::Write(data) => {
            law_write_keeps_placeholders(st, data);
        },
        Step::Pad(byte) => {
            let after = st.padded_with(byte);
            assert forall|t: int, j: int| #[trigger] after.has(t, j) implies st.has(t, j) by {}
        },
        Step::Open(width) => {
            law_open_keeps_placeholders(st, width);
        },
        Step::Mark(t, data) => {
            law_mark_keeps_placeholders(st, t, data);
        },
        Step::Resolve(t, data) => {
            law_resolve_patches_every_placeholder(st, t, data);
        },
    }
}

/// Whatever a writer goes on to do, a placeholder shows what it showed for
/// as long as its slot is not resolved. So a placeholder of a slot that is
/// never resolved shows the slot's initial value to the end.
pub proof fn law_unresolved_placeholder_keeps_its_value(
    st: State,
    steps: Seq<Step>,
    s: int,
    k: int,
)
    requires
        st.wf(),
        st.has(s, k),
        st.admits(steps),
        forall|i: int| 0 <= i < steps.len() ==> !(#[trigger] steps[i]).resolves(s),
    ensures
        st.run(steps).wf(),
        st.run(steps).has(s, k),
        st.run(steps).shown(s, k) == st.shown(s, k),
    decreases steps.len(),
{
    if steps.len() > 0 {
        let before = steps.drop_last();
        assert forall|i: int| 0 <= i < before.len() implies !(#[trigger] before[i]).resolves(s) by {
            assert(before[i] == steps[i]);
        }
        law_unresolved_placeholder_keeps_its_value(st, before, s, k);
        assert(steps.last() == steps[steps.len() - 1]);
        law_step_keeps_placeholders(st.run(before), steps.last(), s, k);
    }
}

/// A placeholder that has just been written shows the data it was written
/// with, and goes on to do so for as long as its slot is not resolved.
pub proof fn law_placeholder_shows_initial_until_resolved(
    st: State,
    s: int,
    data: Seq<u8>,
    steps: Seq<Step>,
)
    requires
        st.wf(),
        st.allows(Step::Mark(s, data)),
        st.marked(s, data).admits(steps),
        forall|i: int| 0 <= i < steps.len() ==> !(#[trigger] steps[i]).resolves(s),
    ensures
        st.marked(s, data).run(steps).has(s, st.slots[s].len() as int),
        st.marked(s, data).run(steps).shown(s, st.slots[s].len() as int) == data,
{
    law_mark_keeps_placeholders(st, s, data);
    law_unresolved_placeholder_keeps_its_value(
        st.marked(s, data),
        steps,
        s,
        st.slots[s].len() as int,
    );
}

} // verus!
