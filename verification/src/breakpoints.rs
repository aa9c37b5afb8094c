//! The registry of breakpoints: every address the user asked for, in the
//! order asked, and for each address that is patched into a live process the
//! instruction byte that the trap displaced.

use vstd::prelude::*;

verus! {

/// The one-byte instruction that stops a traced process when executed.
pub const TRAP_OPCODE: u8 = 0xcc;

/// One requested breakpoint. `original_byte` is present exactly while the
/// trap is installed at `address` in the target's memory.
#[derive(Clone, Copy, Debug, PartialEq, Eq)]
pub struct BreakpointEntry {
    pub address: usize,
    pub original_byte: Option<u8>,
}

/// Entries at one address agree on whether, and over which byte, the trap is
/// installed there.
pub open spec fn consistent(s: Seq<BreakpointEntry>) -> bool {
    forall|i: int, j: int|
        0 <= i < s.len() && 0 <= j < s.len() && (#[trigger] s[i]).address == (
        #[trigger] s[j]).address ==> s[i].original_byte == s[j].original_byte
}

/// Some entry of `s` is at `address`.
pub open spec fn registered(s: Seq<BreakpointEntry>, address: usize) -> bool {
    exists|i: int| 0 <= i < s.len() && (#[trigger] s[i]).address == address
}

/// The byte displaced at `address`, if a trap is installed there.
pub open spec fn original_at(s: Seq<BreakpointEntry>, address: usize) -> Option<u8>
    decreases s.len(),
{
    if s.len() == 0 {
        None
    } else if s.last().address == address {
        s.last().original_byte
    } else {
        original_at(s.drop_last(), address)
    }
}

/// `s` with the patch state of every entry at `address` replaced.
pub open spec fn with_patch(s: Seq<BreakpointEntry>, address: usize, byte: Option<u8>) -> Seq<
    BreakpointEntry,
> {
    Seq::new(
        s.len(),
        |i: int|
            if s[i].address == address {
                BreakpointEntry { address, original_byte: byte }
            } else {
                s[i]
            },
    )
}

/// `s` with no trap installed anywhere.
pub open spec fn without_patches(s: Seq<BreakpointEntry>) -> Seq<BreakpointEntry> {
    Seq::new(s.len(), |i: int| BreakpointEntry { address: s[i].address, original_byte: None })
}

/// No entry of `s` records an installed trap.
pub open spec fn unpatched(s: Seq<BreakpointEntry>) -> bool {
    forall|i: int| 0 <= i < s.len() ==> (#[trigger] s[i]).original_byte is None
}

/// `original_at` reads the patch state of any entry at the address, and is
/// `None` where there is none.
pub proof fn lemma_original_at(s: Seq<BreakpointEntry>, address: usize)
    requires
        consistent(s),
    ensures
        forall|i: int|
            0 <= i < s.len() && (#[trigger] s[i]).address == address ==> original_at(s, address)
                == s[i].original_byte,
        !registered(s, address) ==> original_at(s, address) is None,
    decreases s.len(),
{
    if s.len() > 0 {
        let t = s.drop_last();
        assert forall|i: int, j: int|
            0 <= i < t.len() && 0 <= j < t.len() && (#[trigger] t[i]).address == (
            #[trigger] t[j]).address implies t[i].original_byte == t[j].original_byte by {
            assert(t[i] == s[i] && t[j] == s[j]);
        }
        lemma_original_at(t, address);
        assert forall|i: int| 0 <= i < s.len() && (#[trigger] s[i]).address == address implies
            original_at(s, address) == s[i].original_byte by {
            if s.last().address == address {
                assert(s[s.len() - 1].address == s[i].address);
            } else {
                assert(t[i] == s[i]);
            }
        }
        if !registered(s, address) {
            assert(s[s.len() - 1].address != address);
            assert forall|i: int| 0 <= i < t.len() implies (#[trigger] t[i]).address
                != address by {
                assert(t[i] == s[i]);
            }
        }
    }
}

/// After the entries at a registered address are marked, the registry reads
/// back that mark at the address, and what it read before at any other.
pub proof fn lemma_patch_reads_back(
    s: Seq<BreakpointEntry>,
    address: usize,
    byte: Option<u8>,
    other: usize,
)
    requires
        consistent(s),
    ensures
        registered(s, address) ==> original_at(with_patch(s, address, byte), address) == byte,
        other != address ==> original_at(with_patch(s, address, byte), other) == original_at(
            s,
            other,
        ),
{
    let t = with_patch(s, address, byte);
    lemma_original_at(s, address);
    lemma_original_at(s, other);
    lemma_original_at(t, address);
    lemma_original_at(t, other);
    if registered(s, address) {
        let i = choose|i: int| 0 <= i < s.len() && (#[trigger] s[i]).address == address;
        assert(t[i].address == address);
    }
    if other != address {
        if registered(s, other) {
            let i = choose|i: int| 0 <= i < s.len() && (#[trigger] s[i]).address == other;
            assert(t[i] == s[i]);
        } else {
            assert forall|i: int| 0 <= i < t.len() implies (#[trigger] t[i]).address
                != other by {
                assert(s[i].address != other);
            }
        }
    }
}

/// The ordered registry. A breakpoint's number is its position in it.
pub struct BreakpointTable {
    entries: Vec<BreakpointEntry>,
}

impl View for BreakpointTable {
    type V = Seq<BreakpointEntry>;

    closed spec fn view(&self) -> Seq<BreakpointEntry> {
        self.entries@
    }
}

impl BreakpointTable {
    /// The registry's invariant.
    pub open spec fn wf(&self) -> bool {
        consistent(self@)
    }

    /// Every number of the registry fits a machine word.
    pub proof fn lemma_numbers_fit(&self)
        ensures
            self@.len() <= usize::MAX,
    {
        assert(self.entries@.len() == self.entries.len());
    }

    /// An empty registry.
    pub fn new() -> (table: BreakpointTable)
        ensures
            table@ == Seq::<BreakpointEntry>::empty(),
            table.wf(),
    {
        BreakpointTable { entries: Vec::new() }
    }

    /// How many breakpoints were registered.
    pub fn len(&self) -> (n: usize)
        ensures
            n == self@.len(),
    {
        self.entries.len()
    }

    /// The breakpoint with the given number.
    pub fn get(&self, number: usize) -> (entry: Option<BreakpointEntry>)
        ensures
            entry == if number < self@.len() {
                Some(self@[number as int])
            } else {
                None
            },
    {
        if number < self.entries.len() {
            Some(self.entries[number])
        } else {
            None
        }
    }

    /// The number of the earliest breakpoint registered at `address`.
    pub fn number_at(&self, address: usize) -> (number: Option<usize>)
        ensures
            match number {
                Some(n) => n < self@.len() && self@[n as int].address == address && forall|j: int|
                    0 <= j < n ==> (#[trigger] self@[j]).address != address,
                None => !registered(self@, address),
            },
    {
        let mut i: usize = 0;
        while i < self.entries.len()
            invariant
                i <= self.entries.len(),
                forall|j: int| 0 <= j < i ==> (#[trigger] self@[j]).address != address,
            decreases self.entries.len() - i,
        {
            if self.entries[i].address == address {
                return Some(i);
            }
            i += 1;
        }
        None
    }

    /// The byte that the trap at `address` displaced, while one is installed.
    pub fn original_byte_at(&self, address: usize) -> (byte: Option<u8>)
        ensures
            byte == original_at(self@, address),
    {
        let mut found: Option<u8> = None;
        let mut i: usize = 0;
        assert(self@.subrange(0, 0) =~= Seq::<BreakpointEntry>::empty());
        while i < self.entries.len()
            invariant
                i <= self.entries.len(),
                found == original_at(self@.subrange(0, i as int), address),
            decreases self.entries.len() - i,
        {
            assert(self@.subrange(0, i + 1).drop_last() =~= self@.subrange(0, i as int));
            if self.entries[i].address == address {
                found = self.entries[i].original_byte;
            }
            i += 1;
        }
        assert(self@.subrange(0, i as int) =~= self@);
        found
    }

    /// Registers one more breakpoint and returns its number. An address may
    /// be registered again: each registration has a number of its own, and
    /// one made at a patched address shares that patch.
    pub fn register(&mut self, address: usize) -> (number: usize)
        requires
            old(self).wf(),
        ensures
            final(self).wf(),
            number == old(self)@.len(),
            final(self)@ == old(self)@.push(
                BreakpointEntry { address, original_byte: original_at(old(self)@, address) },
            ),
    {
        let number = self.entries.len();
        let original_byte = self.original_byte_at(address);
        proof {
            lemma_original_at(self@, address);
        }
        self.entries.push(BreakpointEntry { address, original_byte });
        number
    }

    /// Records that the trap now stands at `address`, over `original_byte`.
    pub fn mark_installed(&mut self, address: usize, original_byte: u8)
        requires
            old(self).wf(),
        ensures
            final(self).wf(),
            final(self)@ == with_patch(old(self)@, address, Some(original_byte)),
    {
        self.set_patch(address, Some(original_byte));
    }

    /// Records that the original byte stands at `address` again.
    pub fn mark_removed(&mut self, address: usize)
        requires
            old(self).wf(),
        ensures
            final(self).wf(),
            final(self)@ == with_patch(old(self)@, address, None),
    {
        self.set_patch(address, None);
    }

    fn set_patch(&mut self, address: usize, byte: Option<u8>)
        requires
            old(self).wf(),
        ensures
            final(self).wf(),
            final(self)@ == with_patch(old(self)@, address, byte),
    {
        let ghost before = self@;
        let mut i: usize = 0;
        while i < self.entries.len()
            invariant
                i <= self.entries.len(),
                self@.len() == before.len(),
                forall|j: int| 0 <= j < i ==> self@[j] == with_patch(before, address, byte)[j],
                forall|j: int| i <= j < before.len() ==> self@[j] == before[j],
            decreases self.entries.len() - i,
        {
            if self.entries[i].address == address {
                self.entries.set(i, BreakpointEntry { address, original_byte: byte });
            }
            i += 1;
        }
        assert(self@ =~= with_patch(before, address, byte));
    }

    /// Forgets every patch: the memory they were made in is gone.
    pub fn clear_patches(&mut self)
        ensures
            final(self).wf(),
            final(self)@ == without_patches(old(self)@),
            unpatched(final(self)@),
    {
        let ghost before = self@;
        let mut i: usize = 0;
        while i < self.entries.len()
            invariant
                i <= self.entries.len(),
                self@.len() == before.len(),
                forall|j: int| 0 <= j < i ==> self@[j] == without_patches(before)[j],
                forall|j: int| i <= j < before.len() ==> self@[j] == before[j],
            decreases self.entries.len() - i,
        {
            let address = self.entries[i].address;
            self.entries.set(i, BreakpointEntry { address, original_byte: None });
            i += 1;
        }
        assert(self@ =~= without_patches(before));
    }

    /// The registered addresses, in registration order.
    pub fn addresses(&self) -> (list: Vec<usize>)
        ensures
            list@.len() == self@.len(),
            forall|i: int| 0 <= i < self@.len() ==> list@[i] == (#[trigger] self@[i]).address,
    {
        let mut list: Vec<usize> = Vec::new();
        let mut i: usize = 0;
        while i < self.entries.len()
            invariant
                i <= self.entries.len(),
                list@.len() == i,
                forall|j: int| 0 <= j < i ==> list@[j] == (#[trigger] self@[j]).address,
            decreases self.entries.len() - i,
        {
            list.push(self.entries[i].address);
            i += 1;
        }
        list
    }
}

} // verus!
