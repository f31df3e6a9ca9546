//! The capacity ladder: concatenation of two strings of one capacity into
//! the next rung of the doubling ladder, and the empty default of each
//! capacity.
use vstd::prelude::*;

use crate::fixed::tstr;
use crate::{
    str12, str128, str16, str192, str24, str256, str32, str4, str48, str64, str8, str96,
};

verus! {

impl core::ops::Add for str4 {
    type Output = str8;

    fn add(self, other: Self) -> (r: str8)
        ensures
            r@ == self@ + other@,
    {
        self.concat(&other)
    }
}

impl vstd::std_specs::ops::AddSpecImpl for str4 {
    /// `add` states its result on its own `ensures`, as a view.
    open spec fn obeys_add_spec() -> bool {
        false
    }

    open spec fn add_req(self, rhs: Self) -> bool {
        true
    }

    open spec fn add_spec(self, rhs: Self) -> str8 {
        choose|r: str8| r@ == self@ + rhs@
    }
}

impl core::ops::Add for str8 {
    type Output = str16;

    fn add(self, other: Self) -> (r: str16)
        ensures
            r@ == self@ + other@,
    {
        self.concat(&other)
    }
}

impl vstd::std_specs::ops::AddSpecImpl for str8 {
    /// `add` states its result on its own `ensures`, as a view.
    open spec fn obeys_add_spec() -> bool {
        false
    }

    open spec fn add_req(self, rhs: Self) -> bool {
        true
    }

    open spec fn add_spec(self, rhs: Self) -> str16 {
        choose|r: str16| r@ == self@ + rhs@
    }
}

impl core::ops::Add for str12 {
    type Output = str24;

    fn add(self, other: Self) -> (r: str24)
        ensures
            r@ == self@ + other@,
    {
        self.concat(&other)
    }
}

impl vstd::std_specs::ops::AddSpecImpl for str12 {
    /// `add` states its result on its own `ensures`, as a view.
    open spec fn obeys_add_spec() -> bool {
        false
    }

    open spec fn add_req(self, rhs: Self) -> bool {
        true
    }

    open spec fn add_spec(self, rhs: Self) -> str24 {
        choose|r: str24| r@ == self@ + rhs@
    }
}

impl core::ops::Add for str16 {
    type Output = str32;

    fn add(self, other: Self) -> (r: str32)
        ensures
            r@ == self@ + other@,
    {
        self.concat(&other)
    }
}

impl vstd::std_specs::ops::AddSpecImpl for str16 {
    /// `add` states its result on its own `ensures`, as a view.
    open spec fn obeys_add_spec() -> bool {
        false
    }

    open spec fn add_req(self, rhs: Self) -> bool {
        true
    }

    open spec fn add_spec(self, rhs: Self) -> str32 {
        choose|r: str32| r@ == self@ + rhs@
    }
}

impl core::ops::Add for str24 {
    type Output = str48;

    fn add(self, other: Self) -> (r: str48)
        ensures
            r@ == self@ + other@,
    {
        self.concat(&other)
    }
}

impl vstd::std_specs::ops::AddSpecImpl for str24 {
    /// `add` states its result on its own `ensures`, as a view.
    open spec fn obeys_add_spec() -> bool {
        false
    }

    open spec fn add_req(self, rhs: Self) -> bool {
        true
    }

    open spec fn add_spec(self, rhs: Self) -> str48 {
        choose|r: str48| r@ == self@ + rhs@
    }
}

impl core::ops::Add for str32 {
    type Output = str64;

    fn add(self, other: Self) -> (r: str64)
        ensures
            r@ == self@ + other@,
    {
        self.concat(&other)
    }
}

impl vstd::std_specs::ops::AddSpecImpl for str32 {
    /// `add` states its result on its own `ensures`, as a view.
    open spec fn obeys_add_spec() -> bool {
        false
    }

    open spec fn add_req(self, rhs: Self) -> bool {
        true
    }

    open spec fn add_spec(self, rhs: Self) -> str64 {
        choose|r: str64| r@ == self@ + rhs@
    }
}

impl core::ops::Add for str48 {
    type Output = str96;

    fn add(self, other: Self) -> (r: str96)
        ensures
            r@ == self@ + other@,
    {
        self.concat(&other)
    }
}

impl vstd::std_specs::ops::AddSpecImpl for str48 {
    /// `add` states its result on its own `ensures`, as a view.
    open spec fn obeys_add_spec() -> bool {
        false
    }

    open spec fn add_req(self, rhs: Self) -> bool {
        true
    }

    open spec fn add_spec(self, rhs: Self) -> str96 {
        choose|r: str96| r@ == self@ + rhs@
    }
}

impl core::ops::Add for str64 {
    type Output = str128;

    fn add(self, other: Self) -> (r: str128)
        ensures
            r@ == self@ + other@,
    {
        self.concat(&other)
    }
}

impl vstd::std_specs::ops::AddSpecImpl for str64 {
    /// `add` states its result on its own `ensures`, as a view.
    open spec fn obeys_add_spec() -> bool {
        false
    }

    open spec fn add_req(self, rhs: Self) -> bool {
        true
    }

    open spec fn add_spec(self, rhs: Self) -> str128 {
        choose|r: str128| r@ == self@ + rhs@
    }
}

impl core::ops::Add for str96 {
    type Output = str192;

    fn add(self, other: Self) -> (r: str192)
        ensures
            r@ == self@ + other@,
    {
        self.concat(&other)
    }
}

impl vstd::std_specs::ops::AddSpecImpl for str96 {
    /// `add` states its result on its own `ensures`, as a view.
    open spec fn obeys_add_spec() -> bool {
        false
    }

    open spec fn add_req(self, rhs: Self) -> bool {
        true
    }

    open spec fn add_spec(self, rhs: Self) -> str192 {
        choose|r: str192| r@ == self@ + rhs@
    }
}

impl core::ops::Add for str128 {
    type Output = str256;

    fn add(self, other: Self) -> (r: str256)
        ensures
            r@ == self@ + other@,
    {
        self.concat(&other)
    }
}

impl vstd::std_specs::ops::AddSpecImpl for str128 {
    /// `add` states its result on its own `ensures`, as a view.
    open spec fn obeys_add_spec() -> bool {
        false
    }

    open spec fn add_req(self, rhs: Self) -> bool {
        true
    }

    open spec fn add_spec(self, rhs: Self) -> str256 {
        choose|r: str256| r@ == self@ + rhs@
    }
}

impl Default for str4 {
    fn default() -> (r: Self)
        ensures
            r@ == Seq::<char>::empty(),
    {
        tstr::new()
    }
}

impl Default for str8 {
    fn default() -> (r: Self)
        ensures
            r@ == Seq::<char>::empty(),
    {
        tstr::new()
    }
}

impl Default for str12 {
    fn default() -> (r: Self)
        ensures
            r@ == Seq::<char>::empty(),
    {
        tstr::new()
    }
}

impl Default for str16 {
    fn default() -> (r: Self)
        ensures
            r@ == Seq::<char>::empty(),
    {
        tstr::new()
    }
}

impl Default for str24 {
    fn default() -> (r: Self)
        ensures
            r@ == Seq::<char>::empty(),
    {
        tstr::new()
    }
}

impl Default for str32 {
    fn default() -> (r: Self)
        ensures
            r@ == Seq::<char>::empty(),
    {
        tstr::new()
    }
}

impl Default for str48 {
    fn default() -> (r: Self)
        ensures
            r@ == Seq::<char>::empty(),
    {
        tstr::new()
    }
}

impl Default for str64 {
    fn default() -> (r: Self)
        ensures
            r@ == Seq::<char>::empty(),
    {
        tstr::new()
    }
}

impl Default for str96 {
    fn default() -> (r: Self)
        ensures
            r@ == Seq::<char>::empty(),
    {
        tstr::new()
    }
}

impl Default for str128 {
    fn default() -> (r: Self)
        ensures
            r@ == Seq::<char>::empty(),
    {
        tstr::new()
    }
}

impl Default for str192 {
    fn default() -> (r: Self)
        ensures
            r@ == Seq::<char>::empty(),
    {
        tstr::new()
    }
}

impl Default for str256 {
    fn default() -> (r: Self)
        ensures
            r@ == Seq::<char>::empty(),
    {
        tstr::new()
    }
}

} // verus!
