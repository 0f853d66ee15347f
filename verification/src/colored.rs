//! A fixed record of one value per sensor colour, indexed by `Color`.
use crate::color_index;
use crate::Color;
use vstd::prelude::*;

verus! {

/// One `T` for each of the three colours.
pub struct Colored<T> {
    pub red: T,
    pub green: T,
    pub blue: T,
}

impl<T> Colored<T> {
    pub fn new(red: T, green: T, blue: T) -> (r: Colored<T>)
        ensures
            r.red == red,
            r.green == green,
            r.blue == blue,
    {
        Colored { red, green, blue }
    }

    /// The value of the given colour, as a spec-level selector.
    pub open spec fn sel(&self, c: Color) -> T {
        match c {
            Color::Red => self.red,
            Color::Green => self.green,
            Color::Blue => self.blue,
        }
    }

    /// Shared access to the value of one colour.
    pub fn get(&self, c: Color) -> (r: &T)
        ensures
            *r == self.sel(c),
    {
        match c {
            Color::Red => &self.red,
            Color::Green => &self.green,
            Color::Blue => &self.blue,
        }
    }

    /// Exclusive access to the value of one colour; the other two stay put.
    pub fn get_mut(&mut self, c: Color) -> (r: &mut T)
        ensures
            *r == old(self).sel(c),
            *final(r) == final(self).sel(c),
            forall|d: Color| d != c ==> #[trigger] final(self).sel(d) == old(self).sel(d),
    {
        match c {
            Color::Red => &mut self.red,
            Color::Green => &mut self.green,
            Color::Blue => &mut self.blue,
        }
    }

    /// All three values, shared.
    pub fn split(&self) -> (r: (&T, &T, &T))
        ensures
            *r.0 == self.red,
            *r.1 == self.green,
            *r.2 == self.blue,
    {
        (&self.red, &self.green, &self.blue)
    }

    /// All three values, exclusive.
    pub fn split_mut(&mut self) -> (r: (&mut T, &mut T, &mut T))
        ensures
            *r.0 == old(self).red,
            *r.1 == old(self).green,
            *r.2 == old(self).blue,
            final(self).red == *final(r.0),
            final(self).green == *final(r.1),
            final(self).blue == *final(r.2),
    {
        (&mut self.red, &mut self.green, &mut self.blue)
    }
}

/// The three colours in table order.
pub fn color_order(i: usize) -> (r: Color)
    requires
        i < 3,
    ensures
        color_index(r) == i,
{
    if i == 0 {
        Color::Red
    } else if i == 1 {
        Color::Green
    } else {
        Color::Blue
    }
}

} // verus!
