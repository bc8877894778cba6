use std::ops::Range;
use vstd::prelude::*;
use vstd::std_specs::cmp::PartialEqSpec;
use vstd::std_specs::cmp::PartialEqSpecImpl;

verus! {

/// A byte range into a source file, together with the id of that file.
#[derive(Debug, PartialEq)]
pub struct Location {
    pub range: Range<usize>,
    pub file_id: usize,
}

/// A value together with the place in the source it came from.
#[derive(Debug, Clone)]
pub struct Spanned<T> {
    pub value: T,
    pub location: Location,
}

impl Location {
    /// The empty range `0..0` of file `0`.
    pub fn new() -> (r: Self)
        ensures
            r.range.start == 0,
            r.range.end == 0,
            r.file_id == 0,
    {
        Location { range: 0..0, file_id: 0 }
    }

    /// A copy of this location.
    pub fn duplicate(&self) -> (r: Self)
        ensures
            r == *self,
    {
        Location { range: self.range.start..self.range.end, file_id: self.file_id }
    }

    /// The location that starts where `self` starts and ends where `other` ends,
    /// in the file of `self`.
    pub fn until(&self, other: &Self) -> (r: Self)
        ensures
            r.range.start == self.range.start,
            r.range.end == other.range.end,
            r.file_id == self.file_id,
    {
        Location { range: self.range.start..other.range.end, file_id: self.file_id }
    }

    /// `self.until(last location in other)`, or a copy of `self` when `other` is empty.
    pub fn until_vec<T>(&self, other: &Vec<Spanned<T>>) -> (r: Self)
        ensures
            r.range.start == self.range.start,
            r.file_id == self.file_id,
            r.range.end == if other@.len() == 0 {
                self.range.end
            } else {
                other@.last().location.range.end
            },
    {
        if other.len() == 0 {
            self.until(self)
        } else {
            self.until(&other[other.len() - 1].location)
        }
    }

    /// The location of the first element of `other` (or `self` when it is empty),
    /// extended until the location of that same first element.
    pub fn as_fallback_for_vec<T>(&self, other: &Vec<Spanned<T>>) -> (r: Self)
        ensures
            other@.len() == 0 ==> r == *self,
            other@.len() > 0 ==> r == other@[0].location,
    {
        let first = if other.len() == 0 { self.duplicate() } else { other[0].location.duplicate() };
        let last = if other.len() == 0 { self.duplicate() } else { other[0].location.duplicate() };
        first.until(&last)
    }

    /// Attaches `value` to this location.
    pub fn into_spanned<T>(self, value: T) -> (r: Spanned<T>)
        ensures
            r.value == value,
            r.location == self,
    {
        Spanned { value, location: self }
    }

    /// Attaches `value` to a copy of this location.
    pub fn to_spanned<T>(&self, value: T) -> (r: Spanned<T>)
        ensures
            r.value == value,
            r.location == *self,
    {
        Spanned { value, location: self.duplicate() }
    }
}

impl Clone for Location {
    fn clone(&self) -> (r: Self)
        ensures
            r == *self,
    {
        self.duplicate()
    }
}

/// Two spanned values are equal when their values are, wherever they stand.
impl<T: PartialEq> PartialEq for Spanned<T> {
    fn eq(&self, other: &Self) -> (r: bool) {
        self.value == other.value
    }
}

impl<T: PartialEq> PartialEqSpecImpl for Spanned<T> {
    open spec fn obeys_eq_spec() -> bool {
        <T as PartialEqSpec>::obeys_eq_spec()
    }

    open spec fn eq_spec(&self, other: &Self) -> bool {
        PartialEqSpec::eq_spec(&self.value, &other.value)
    }
}

impl<T> Spanned<T> {
    pub fn new(location: Location, value: T) -> (r: Spanned<T>)
        ensures
            r.value == value,
            r.location == location,
    {
        Spanned { value: value, location }
    }

    /// Applies `f` to the value, keeping the location.
    pub fn map<U, F: FnOnce(T) -> U>(self, f: F) -> (r: Spanned<U>)
        requires
            f.requires((self.value,)),
        ensures
            f.ensures((self.value,), r.value),
            r.location == self.location,
    {
        let location = self.location.duplicate();
        Spanned { location, value: f(self.value) }
    }

    /// Applies `f` to a reference to the value, keeping the location.
    pub fn map_ref<U, F: Fn(&T) -> U>(&self, f: F) -> (r: Spanned<U>)
        requires
            f.requires((&self.value,)),
        ensures
            f.ensures((&self.value,), r.value),
            r.location == self.location,
    {
        Spanned { location: self.location.duplicate(), value: f(&self.value) }
    }

    /// Shifts both ends of the location by `offset`.
    pub fn with_offset(self, offset: usize) -> (r: Spanned<T>)
        requires
            self.location.range.start + offset <= usize::MAX,
            self.location.range.end + offset <= usize::MAX,
        ensures
            r.value == self.value,
            r.location.range.start == self.location.range.start + offset,
            r.location.range.end == self.location.range.end + offset,
            r.location.file_id == self.location.file_id,
    {
        Spanned {
            value: self.value,
            location: Location {
                range: (self.location.range.start + offset)..(self.location.range.end + offset),
                file_id: self.location.file_id,
            },
        }
    }

    pub fn start(&self) -> (r: usize)
        ensures
            r == self.location.range.start,
    {
        self.location.range.start
    }

    pub fn end(&self) -> (r: usize)
        ensures
            r == self.location.range.end,
    {
        self.location.range.end
    }
}

} // verus!
