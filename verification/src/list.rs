//! A singly linked list of numbers.

use vstd::prelude::*;
use vstd::string::*;
use crate::digits::{decimal, to_decimal};

verus! {

/// A list is empty, or a number in front of a list.
pub enum List {
    /// A number and the list that follows it.
    Cons(u32, Box<List>),
    /// The end of the list.
    Nil,
}

impl List {
    /// The numbers of the list, front to back.
    pub open spec fn elements(self) -> Seq<u32>
        decreases self,
    {
        match self {
            List::Cons(head, tail) => seq![head] + (*tail).elements(),
            List::Nil => Seq::empty(),
        }
    }
}

impl View for List {
    type V = Seq<u32>;

    open spec fn view(&self) -> Seq<u32> {
        self.elements()
    }
}

/// The numbers in decimal, each followed by a space, and then `Nil`.
pub open spec fn rendered(numbers: Seq<u32>) -> Seq<char>
    decreases numbers.len(),
{
    if numbers.len() == 0 {
        seq!['N', 'i', 'l']
    } else {
        decimal(numbers[0] as nat) + seq![' '] + rendered(numbers.drop_first())
    }
}

impl List {
    /// The empty list.
    pub fn new() -> (list: List)
        ensures
            list@ == Seq::<u32>::empty(),
    {
        List::Nil
    }

    /// The list with `elem` put in front of it.
    pub fn prepend(self, elem: u32) -> (list: List)
        ensures
            list@ == seq![elem] + self@,
    {
        List::Cons(elem, Box::new(self))
    }

    /// The number of elements.
    pub fn len(&self) -> (count: u32)
        requires
            self@.len() <= u32::MAX,
        ensures
            count == self@.len(),
        decreases self,
    {
        match self {
            List::Cons(_, tail) => 1 + tail.len(),
            List::Nil => 0,
        }
    }

    /// The list as text: its numbers in decimal, front to back, a space
    /// after each, and `Nil` at the end.
    pub fn stringify(&self) -> (text: String)
        ensures
            text@ == rendered(self@),
        decreases self,
    {
        match self {
            List::Cons(head, tail) => {
                let rest = tail.stringify();
                let text = to_decimal(*head).concat(" ").concat(rest.as_str());
                proof {
                    reveal_strlit(" ");
                    assert(" "@ =~= seq![' ']);
                    assert(self@ =~= seq![*head] + tail@);
                    assert(self@.drop_first() =~= tail@);
                    assert(self@[0] == *head);
                }
                text
            },
            List::Nil => {
                proof {
                    reveal_strlit("Nil");
                    assert("Nil"@ =~= seq!['N', 'i', 'l']);
                }
                String::from_str("Nil")
            },
        }
    }
}

} // verus!
