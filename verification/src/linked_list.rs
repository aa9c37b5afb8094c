//! A singly linked list that grows and shrinks at its front.

use vstd::prelude::*;
use vstd::string::*;

verus! {

/// One cell of a list: a value and the rest of the list.
pub struct Node<T> {
    pub value: T,
    pub next: Option<Box<Node<T>>>,
}

/// The values of a chain of cells, first cell first.
pub open spec fn chain<T>(link: Option<Box<Node<T>>>) -> Seq<T>
    decreases link,
{
    match link {
        None => Seq::empty(),
        Some(node) => seq![node.value] + chain(node.next),
    }
}

impl<T> Node<T> {
    /// A cell that holds `value` in front of `next`.
    pub fn new(value: T, next: Option<Box<Node<T>>>) -> (node: Node<T>)
        ensures
            node.value == value,
            node.next == next,
            chain(Some(Box::new(node))) == seq![value] + chain(next),
    {
        Node { value, next }
    }
}

/// The list. Its view is the sequence of its values, front first.
pub struct LinkedList<T> {
    head: Option<Box<Node<T>>>,
    size: usize,
}

impl<T> View for LinkedList<T> {
    type V = Seq<T>;

    closed spec fn view(&self) -> Seq<T> {
        chain(self.head)
    }
}

impl<T> LinkedList<T> {
    /// The list's invariant: it knows its own length.
    pub closed spec fn wf(&self) -> bool {
        self.size == chain(self.head).len()
    }

    /// The empty list.
    pub fn new() -> (list: LinkedList<T>)
        ensures
            list.wf(),
            list@ == Seq::<T>::empty(),
    {
        LinkedList { head: None, size: 0 }
    }

    /// How many values the list holds.
    pub fn get_size(&self) -> (size: usize)
        requires
            self.wf(),
        ensures
            size == self@.len(),
    {
        self.size
    }

    /// The list holds nothing.
    pub fn is_empty(&self) -> (empty: bool)
        requires
            self.wf(),
        ensures
            empty == (self@.len() == 0),
    {
        self.get_size() == 0
    }

    /// Puts `value` in front of all others.
    pub fn push_front(&mut self, value: T)
        requires
            old(self).wf(),
            old(self)@.len() < usize::MAX,
        ensures
            final(self).wf(),
            final(self)@ == seq![value] + old(self)@,
    {
        let rest = self.head.take();
        let new_node = Box::new(Node::new(value, rest));
        self.head = Some(new_node);
        self.size += 1;
    }

    /// Takes the front value out, if there is one.
    pub fn pop_front(&mut self) -> (value: Option<T>)
        requires
            old(self).wf(),
        ensures
            final(self).wf(),
            match value {
                Some(v) => old(self)@.len() > 0 && v == old(self)@[0] && final(self)@ == old(
                    self,
                )@.drop_first(),
                None => old(self)@.len() == 0 && final(self)@ == old(self)@,
            },
    {
        match self.head.take() {
            None => None,
            Some(node) => {
                let node = *node;
                assert((seq![node.value] + chain(node.next)).drop_first() =~= chain(node.next));
                self.head = node.next;
                self.size -= 1;
                Some(node.value)
            },
        }
    }

    /// The value at `index`, counting from the front.
    pub fn get(&self, index: usize) -> (value: Option<&T>)
        requires
            self.wf(),
        ensures
            match value {
                Some(v) => index < self@.len() && *v == self@[index as int],
                None => index >= self@.len(),
            },
    {
        let mut current: &Option<Box<Node<T>>> = &self.head;
        let mut passed: usize = 0;
        loop
            invariant
                passed <= index,
                chain(*current).len() + passed == self@.len(),
                forall|i: int|
                    0 <= i < chain(*current).len() ==> chain(*current)[i] == self@[i + passed],
            decreases chain(*current).len(),
        {
            match current {
                None => {
                    return None;
                },
                Some(node) => {
                    assert(chain(*current) == seq![node.value] + chain(node.next));
                    if passed == index {
                        assert(chain(*current)[0] == node.value);
                        return Some(&node.value);
                    }
                    assert forall|i: int| 0 <= i < chain(node.next).len() implies chain(
                        node.next,
                    )[i] == self@[i + passed + 1] by {
                        assert(chain(*current)[i + 1] == chain(node.next)[i]);
                    }
                    current = &node.next;
                    passed += 1;
                },
            }
        }
    }

    /// All values, front first.
    pub fn values(&self) -> (all: Vec<&T>)
        requires
            self.wf(),
        ensures
            all@.len() == self@.len(),
            forall|i: int| 0 <= i < self@.len() ==> *(#[trigger] all@[i]) == self@[i],
    {
        let mut all: Vec<&T> = Vec::new();
        let mut current: &Option<Box<Node<T>>> = &self.head;
        loop
            invariant_except_break
                chain(*current).len() + all@.len() == self@.len(),
                forall|i: int|
                    0 <= i < chain(*current).len() ==> chain(*current)[i] == self@[i + all@.len()],
                forall|i: int| 0 <= i < all@.len() ==> *(#[trigger] all@[i]) == self@[i],
            ensures
                all@.len() == self@.len(),
                forall|i: int| 0 <= i < all@.len() ==> *(#[trigger] all@[i]) == self@[i],
            decreases chain(*current).len(),
        {
            match current {
                None => {
                    break ;
                },
                Some(node) => {
                    assert(chain(*current) == seq![node.value] + chain(node.next));
                    assert(chain(*current)[0] == node.value);
                    assert forall|i: int| 0 <= i < chain(node.next).len() implies chain(
                        node.next,
                    )[i] == self@[i + all@.len() + 1] by {
                        assert(chain(*current)[i + 1] == chain(node.next)[i]);
                    }
                    all.push(&node.value);
                    current = &node.next;
                },
            }
        }
        all
    }

    /// Takes every value out, front first, one cell at a time.
    pub fn clear(&mut self)
        requires
            old(self).wf(),
        ensures
            final(self).wf(),
            final(self)@ == Seq::<T>::empty(),
    {
        let mut current = self.head.take();
        self.size = 0;
        while current.is_some()
            invariant
                self.head is None,
                self.size == 0,
            decreases chain(current).len(),
        {
            let node = *current.unwrap();
            assert(chain(Some(Box::new(node))).len() == 1 + chain(node.next).len());
            current = node.next;
        }
    }
}

impl<T> Drop for LinkedList<T> {
    /// Unlinks the cells one at a time, so that a long list is freed
    /// without a call for every cell on the stack.
    fn drop(&mut self)
        ensures
            final(self)@ == Seq::<T>::empty(),
        opens_invariants none
        no_unwind
    {
        let mut current: Option<Box<Node<T>>> = None;
        core::mem::swap(&mut self.head, &mut current);
        loop
            invariant
                self.head is None,
            decreases chain(current).len(),
        {
            match current {
                None => {
                    return ;
                },
                Some(node) => {
                    let node = *node;
                    assert(chain(Some(Box::new(node))).len() == 1 + chain(node.next).len());
                    current = node.next;
                },
            }
        }
    }
}

/// The text of a list: each part with a blank in front of it.
pub open spec fn spaced(parts: Seq<Seq<char>>) -> Seq<char>
    decreases parts.len(),
{
    if parts.len() == 0 {
        Seq::empty()
    } else {
        spaced(parts.drop_last()) + seq![' '] + parts.last()
    }
}

/// Joins the texts of the values of a list, front first, into the text of
/// the list.
pub fn spaced_text(parts: &Vec<String>) -> (text: String)
    ensures
        text@ == spaced(Seq::new(parts@.len(), |i: int| parts@[i]@)),
{
    let ghost all = Seq::new(parts@.len(), |i: int| parts@[i]@);
    let mut text = String::new();
    let mut i: usize = 0;
    proof {
        reveal_strlit(" ");
        assert(all.subrange(0, 0) =~= Seq::<Seq<char>>::empty());
    }
    while i < parts.len()
        invariant
            i <= parts.len(),
            all == Seq::new(parts@.len(), |i: int| parts@[i]@),
            " "@ == seq![' '],
            text@ == spaced(all.subrange(0, i as int)),
        decreases parts.len() - i,
    {
        proof {
            assert(all.subrange(0, i + 1).drop_last() =~= all.subrange(0, i as int));
            assert(all.subrange(0, i + 1).last() == parts@[i as int]@);
        }
        text = text.concat(" ").concat(parts[i].as_str());
        i += 1;
    }
    assert(all.subrange(0, i as int) =~= all);
    text
}

impl<T: Clone> Clone for LinkedList<T> {
    /// A list of clones of the values, in the same order.
    fn clone(&self) -> (copy: LinkedList<T>)
        ensures
            copy.wf(),
            copy@.len() == self@.len(),
            forall|i: int| 0 <= i < self@.len() ==> cloned(#[trigger] self@[i], copy@[i]),
    {
        let mut elements: Vec<T> = Vec::new();
        let mut current: &Option<Box<Node<T>>> = &self.head;
        loop
            invariant_except_break
                chain(*current).len() + elements@.len() == self@.len(),
                forall|i: int|
                    0 <= i < chain(*current).len() ==> chain(*current)[i] == self@[i
                        + elements@.len()],
                forall|i: int| 0 <= i < elements@.len() ==> cloned(self@[i], #[trigger] elements@[i]),
            ensures
                elements@.len() == self@.len(),
                forall|i: int| 0 <= i < elements@.len() ==> cloned(self@[i], #[trigger] elements@[i]),
            decreases chain(*current).len(),
        {
            match current {
                None => {
                    break ;
                },
                Some(node) => {
                    assert(chain(*current) == seq![node.value] + chain(node.next));
                    assert(chain(*current)[0] == node.value);
                    assert forall|i: int| 0 <= i < chain(node.next).len() implies chain(
                        node.next,
                    )[i] == self@[i + elements@.len() + 1] by {
                        assert(chain(*current)[i + 1] == chain(node.next)[i]);
                    }
                    elements.push(node.value.clone());
                    current = &node.next;
                },
            }
        }
        let mut copy: LinkedList<T> = LinkedList::new();
        let ghost all = elements@;
        assert(all.len() == elements.len());
        while elements.len() > 0
            invariant
                copy.wf(),
                all.len() == self@.len(),
                all.len() <= usize::MAX,
                elements@.len() + copy@.len() == all.len(),
                elements@ == all.subrange(0, elements@.len() as int),
                copy@ == all.subrange(elements@.len() as int, all.len() as int),
            decreases elements@.len(),
        {
            let value = elements.pop().unwrap();
            copy.push_front(value);
            assert(copy@ =~= all.subrange(elements@.len() as int, all.len() as int));
            assert(elements@ =~= all.subrange(0, elements@.len() as int));
        }
        assert(copy@ =~= all);
        copy
    }
}

} // verus!
