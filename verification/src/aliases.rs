//! Aliases: second names for types.

use vstd::prelude::*;

verus! {

/// A type whose name is long enough to want an alias.
#[derive(Clone, Copy, Debug, PartialEq, Eq, Structural)]
pub struct MyReallyLongStructName;

/// A shorter name for [`MyReallyLongStructName`].
pub type MyStruct = MyReallyLongStructName;

/// A name for `i8` that says what it is used for.
pub type SmallInt = i8;

/// Shows that an alias and the type it names are one type: a value made
/// under one name is a value under the other.
pub fn defining_type_aliases() {
    let long: MyReallyLongStructName = MyReallyLongStructName;
    let short: MyStruct = long;
    let small: SmallInt = 5i8;
    let plain: i8 = small;
    assert(short == long);
    assert(plain == small);
}

} // verus!
