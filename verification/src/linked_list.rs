//! A singly linked list that owns its nodes, viewed as the sequence of its
//! values from front to back.

use vstd::prelude::*;
use vstd::string::*;

verus! {

/// One cell of the list: a value and the rest of the chain.
pub struct Node<T> {
    pub value: T,
    pub next: Option<Box<Node<T>>>,
}

impl<T> Node<T> {
    /// The values of this node and of every node after it, front first.
    pub open spec fn items(self) -> Seq<T>
        decreases self,
    {
        match self.next {
            None => seq![self.value],
            Some(rest) => seq![self.value] + rest.items(),
        }
    }

    pub fn new(value: T, next: Option<Box<Node<T>>>) -> (node: Node<T>)
        ensures
            node.value == value,
            node.next == next,
            node.items() == seq![value] + chain_items(next),
    {
        Node { value, next }
    }
}

/// The values held by a chain of nodes, front first.
pub open spec fn chain_items<T>(chain: Option<Box<Node<T>>>) -> Seq<T> {
    match chain {
        None => Seq::empty(),
        Some(node) => node.items(),
    }
}

pub struct LinkedList<T> {
    head: Option<Box<Node<T>>>,
    size: usize,
}

impl<T> View for LinkedList<T> {
    type V = Seq<T>;

    closed spec fn view(&self) -> Seq<T> {
        chain_items(self.head)
    }
}

impl<T> LinkedList<T> {
    /// The recorded size agrees with the number of nodes.
    pub closed spec fn well_formed(&self) -> bool {
        self.size == chain_items(self.head).len()
    }

    pub fn new() -> (list: LinkedList<T>)
        ensures
            list.well_formed(),
            list@ == Seq::<T>::empty(),
    {
        LinkedList { head: None, size: 0 }
    }

    pub fn get_size(&self) -> (size: usize)
        requires
            self.well_formed(),
        ensures
            size == self@.len(),
    {
        self.size
    }

    pub fn is_empty(&self) -> (empty: bool)
        requires
            self.well_formed(),
        ensures
            empty == (self@.len() == 0),
    {
        self.get_size() == 0
    }

    pub fn push_front(&mut self, value: T)
        requires
            old(self).well_formed(),
            old(self)@.len() < usize::MAX,
        ensures
            final(self).well_formed(),
            final(self)@ == seq![value] + old(self)@,
    {
        let new_node: Box<Node<T>> = Box::new(Node::new(value, self.head.take()));
        self.head = Some(new_node);
        self.size += 1;
    }

    pub fn pop_front(&mut self) -> (front: Option<T>)
        requires
            old(self).well_formed(),
        ensures
            final(self).well_formed(),
            old(self)@.len() == 0 ==> front.is_none() && final(self)@ == old(self)@,
            old(self)@.len() > 0 ==> front == Some(old(self)@[0]) && final(self)@ == old(
                self,
            )@.subrange(1, old(self)@.len() as int),
    {
        match self.head.take() {
            None => None,
            Some(node) => {
                let node: Node<T> = *node;
                assert(node.items() == seq![node.value] + chain_items(node.next));
                assert((seq![node.value] + chain_items(node.next)).subrange(
                    1,
                    node.items().len() as int,
                ) =~= chain_items(node.next));
                self.head = node.next;
                self.size -= 1;
                Some(node.value)
            },
        }
    }

    /// A cursor over the values, front first.
    pub fn iter(&self) -> (it: LinkedListIter<'_, T>)
        ensures
            it.remaining() == self@,
    {
        LinkedListIter { current: &self.head }
    }
}

impl<T: Clone> Clone for LinkedList<T> {
    /// A list of the same length whose values are the clones of this
    /// list's values, in the same order.
    fn clone(&self) -> (copy: Self)
        ensures
            copy.well_formed() == self.well_formed(),
            copy@.len() == self@.len(),
            forall|i: int| 0 <= i < self@.len() ==> cloned::<T>(#[trigger] self@[i], copy@[i]),
    {
        // The clones, last value first.
        let mut turned: Option<Box<Node<T>>> = None;
        let mut current: &Option<Box<Node<T>>> = &self.head;
        let ghost mut seen: Seq<T> = Seq::empty();
        proof {
            assert(seen + chain_items(*current) =~= self@);
        }
        while current.is_some()
            invariant
                seen + chain_items(*current) == self@,
                chain_items(turned).len() == seen.len(),
                forall|i: int|
                    0 <= i < seen.len() ==> cloned::<T>(
                        #[trigger] seen[i],
                        chain_items(turned)[seen.len() - 1 - i],
                    ),
            decreases chain_items(*current).len(),
        {
            let node: &Box<Node<T>> = current.as_ref().unwrap();
            let value: T = node.value.clone();
            let ghost before = chain_items(turned);
            turned = Some(Box::new(Node::new(value, turned)));
            proof {
                assert(node.items() == seq![node.value] + chain_items(node.next));
                assert(seen.push(node.value) + chain_items(node.next) =~= seen + chain_items(
                    *current,
                ));
                let grown = seen.push(node.value);
                assert forall|i: int| 0 <= i < grown.len() implies cloned::<T>(
                    #[trigger] grown[i],
                    chain_items(turned)[grown.len() - 1 - i],
                ) by {
                    if i < seen.len() {
                        assert(grown[i] == seen[i]);
                        assert(chain_items(turned)[grown.len() - 1 - i] == before[seen.len() - 1
                            - i]);
                    }
                }
                seen = grown;
            }
            current = &node.next;
        }
        proof {
            assert(chain_items(*current).len() == 0);
            assert(seen =~= self@);
        }
        // Turned round once more, the clones stand front first.
        let ghost clones = chain_items(turned);
        let ghost mut moved: int = 0;
        let mut head: Option<Box<Node<T>>> = None;
        while turned.is_some()
            invariant
                0 <= moved <= clones.len(),
                chain_items(turned) == clones.subrange(moved, clones.len() as int),
                chain_items(head).len() == moved,
                forall|j: int| 0 <= j < moved ==> (#[trigger] chain_items(head)[j]) == clones[moved - 1 - j],
            decreases chain_items(turned).len(),
        {
            let ghost rest = chain_items(turned);
            let node: Node<T> = *turned.unwrap();
            let ghost before = chain_items(head);
            proof {
                assert(rest == node.items());
                assert(node.items() == seq![node.value] + chain_items(node.next));
                assert(rest[0] == node.value);
                assert(rest[0] == clones[moved]);
                assert(chain_items(node.next) =~= rest.subrange(1, rest.len() as int));
                assert(chain_items(node.next) =~= clones.subrange(moved + 1, clones.len() as int));
            }
            turned = node.next;
            head = Some(Box::new(Node::new(node.value, head)));
            proof {
                assert forall|j: int| 0 <= j < moved + 1 implies (#[trigger] chain_items(head)[j])
                    == clones[moved - j] by {
                    if j > 0 {
                        assert(chain_items(head)[j] == before[j - 1]);
                    }
                }
                moved = moved + 1;
            }
        }
        proof {
            assert(chain_items(turned).len() == 0);
            assert(moved == clones.len());
            assert forall|i: int| 0 <= i < self@.len() implies cloned::<T>(
                #[trigger] self@[i],
                chain_items(head)[i],
            ) by {
                assert(cloned::<T>(seen[i], clones[seen.len() - 1 - i]));
                assert(chain_items(head)[i] == clones[moved - 1 - i]);
            }
        }
        LinkedList { head, size: self.size }
    }
}

/// The pieces of a text put one after the other, each with a space before
/// it.
pub open spec fn joined(pieces: Seq<Seq<char>>) -> Seq<char>
    decreases pieces.len(),
{
    if pieces.len() == 0 {
        Seq::empty()
    } else {
        joined(pieces.drop_last()) + seq![' '] + pieces.last()
    }
}

/// `pieces` are the values of `items` as their `Display` writes them, one
/// piece for each value, in order.
pub open spec fn shows<T: core::fmt::Display>(items: Seq<T>, pieces: Seq<String>) -> bool {
    &&& pieces.len() == items.len()
    &&& forall|i: int|
        0 <= i < items.len() ==> to_string_from_display_ensures::<T>(&items[i], #[trigger] pieces[i])
}

impl<T: core::fmt::Display> LinkedList<T> {
    /// The list as text: every value as its `Display` writes it, front
    /// first, each with a space before it.
    pub fn to_text(&self) -> (text: String)
        ensures
            exists|pieces: Seq<String>|
                shows(self@, pieces) && text@ == joined(pieces.map_values(|p: String| p@)),
    {
        let mut text: String = String::new();
        let mut current: &Option<Box<Node<T>>> = &self.head;
        let ghost mut pieces: Seq<String> = Seq::empty();
        let ghost mut seen: Seq<T> = Seq::empty();
        proof {
            reveal_strlit(" ");
            assert(seen + chain_items(*current) =~= self@);
            assert(pieces.map_values(|p: String| p@) =~= Seq::<Seq<char>>::empty());
        }
        while current.is_some()
            invariant
                seen + chain_items(*current) == self@,
                shows(seen, pieces),
                text@ == joined(pieces.map_values(|p: String| p@)),
                " "@ == seq![' '],
            decreases chain_items(*current).len(),
        {
            let node: &Box<Node<T>> = current.as_ref().unwrap();
            let piece: String = node.value.to_string();
            let ghost texts = pieces.map_values(|p: String| p@);
            text.append(" ");
            text.append(piece.as_str());
            proof {
                assert(node.items() == seq![node.value] + chain_items(node.next));
                assert(seen.push(node.value) + chain_items(node.next) =~= seen + chain_items(
                    *current,
                ));
                let grown = pieces.push(piece);
                assert(grown.map_values(|p: String| p@).drop_last() =~= texts);
                assert(grown.map_values(|p: String| p@).last() == piece@);
                pieces = grown;
                seen = seen.push(node.value);
            }
            current = &node.next;
        }
        proof {
            assert(chain_items(*current).len() == 0);
            assert(seen =~= self@);
        }
        text
    }
}

/// A cursor into a list: the values that have not been handed out yet.
pub struct LinkedListIter<'a, T> {
    current: &'a Option<Box<Node<T>>>,
}

impl<'a, T> LinkedListIter<'a, T> {
    /// The values still to come, next one first.
    pub closed spec fn remaining(&self) -> Seq<T> {
        chain_items(*self.current)
    }

    /// Hands out the next value, if any, and moves past it.
    pub fn next(&mut self) -> (item: Option<&'a T>)
        ensures
            old(self).remaining().len() == 0 ==> item.is_none() && final(self).remaining() == old(
                self,
            ).remaining(),
            old(self).remaining().len() > 0 ==> item == Some(&old(self).remaining()[0])
                && final(self).remaining() == old(self).remaining().subrange(
                1,
                old(self).remaining().len() as int,
            ),
    {
        match self.current {
            Some(node) => {
                assert(node.items() == seq![node.value] + chain_items(node.next));
                assert((seq![node.value] + chain_items(node.next)).subrange(
                    1,
                    node.items().len() as int,
                ) =~= chain_items(node.next));
                self.current = &node.next;
                Some(&node.value)
            },
            None => None,
        }
    }
}

} // verus!
