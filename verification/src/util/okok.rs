use vstd::prelude::*;

verus! {

/// The success value of a `Result`, by value or by reference, with the
/// error dropped.
pub trait Okok: Sized {
    type Value;

    /// The success value, if there is one.
    spec fn ok_value(self) -> Option<Self::Value>;

    /// Returns the success value, or `None` for an error.
    fn okok(self) -> (value: Option<Self::Value>)
        ensures
            value == self.ok_value(),
    ;

    /// Returns the success value of what is known to be no error.
    fn okok_unchecked(self) -> (value: Self::Value)
        requires
            self.ok_value() is Some,
        ensures
            self.ok_value() == Some(value),
    ;
}

impl<'a, T, E> Okok for &'a Result<T, E> {
    type Value = &'a T;

    open spec fn ok_value(self) -> Option<&'a T> {
        match self {
            Ok(value) => Some(value),
            Err(_) => None,
        }
    }

    fn okok(self) -> (value: Option<&'a T>) {
        match self {
            Ok(value) => Some(value),
            Err(_) => None,
        }
    }

    fn okok_unchecked(self) -> (value: &'a T) {
        match self {
            Ok(value) => value,
            Err(_) => unreached(),
        }
    }
}

impl<T, E> Okok for Result<T, E> {
    type Value = T;

    open spec fn ok_value(self) -> Option<T> {
        match self {
            Ok(value) => Some(value),
            Err(_) => None,
        }
    }

    fn okok(self) -> (value: Option<T>) {
        match self {
            Ok(value) => Some(value),
            Err(_) => None,
        }
    }

    fn okok_unchecked(self) -> (value: T) {
        match self {
            Ok(value) => value,
            Err(_) => unreached(),
        }
    }
}

} // verus!
