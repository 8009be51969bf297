//! Conversion between the concrete variants of a family and the closed
//! carrier that stands for any of them.
use vstd::prelude::*;

verus! {

/// A closed carrier: a value of one of the registered variants of a family,
/// together with the tag that says which.
pub trait Erased: Sized {
    /// Names the variants of the family.
    type Tag;

    /// The tag of the variant that this value holds.
    spec fn tag_spec(&self) -> Self::Tag;

    /// The tag of the variant that this value holds.
    fn tag(&self) -> (t: Self::Tag)
        ensures
            t == self.tag_spec(),
    ;
}

/// A registered variant of a family.
pub trait WrapBase: Sized {
    /// The carrier of the family.
    type Base: Erased;

    /// The tag under which this variant is registered.
    spec fn variant() -> <Self::Base as Erased>::Tag;

    /// The carrier that holds `self`.
    spec fn wrap_spec(self) -> Self::Base;

    /// The value that the carrier holds, if it is of this variant.
    spec fn unwrap_spec(base: &Self::Base) -> Option<Self>;

    /// The carrier that holds `self`.
    fn wrap_base(self) -> (b: Self::Base)
        ensures
            b == self.wrap_spec(),
    ;

    /// The value that the carrier holds, if it is of this variant.
    fn unwrap_base(base: Self::Base) -> (r: Option<Self>)
        ensures
            r == Self::unwrap_spec(&base),
    ;

    /// The value that the carrier holds, if it is of this variant.
    fn unwrap_base_ref(base: &Self::Base) -> (r: Option<&Self>)
        ensures
            r.is_some() == Self::unwrap_spec(base).is_some(),
            r.is_some() ==> *r.unwrap() == Self::unwrap_spec(base).unwrap(),
    ;

    /// Wrapping tags a value with its variant, and unwrapping gives it back.
    proof fn lemma_round_trip(v: Self)
        ensures
            v.wrap_spec().tag_spec() == Self::variant(),
            Self::unwrap_spec(&v.wrap_spec()) == Some(v),
    ;

    /// Unwrapping succeeds exactly on the carriers of this variant, and
    /// wrapping what came out gives the carrier back.
    proof fn lemma_unwrap(base: Self::Base)
        ensures
            Self::unwrap_spec(&base).is_some() <==> base.tag_spec() == Self::variant(),
            Self::unwrap_spec(&base).is_some() ==> Self::unwrap_spec(&base).unwrap().wrap_spec()
                == base,
    ;
}

/// A value wrapped as one variant cannot be unwrapped as another.
pub proof fn lemma_unwrap_other_variant<T: WrapBase, U: WrapBase<Base = T::Base>>(v: T)
    requires
        T::variant() != U::variant(),
    ensures
        U::unwrap_spec(&v.wrap_spec()).is_none(),
{
    T::lemma_round_trip(v);
    U::lemma_unwrap(v.wrap_spec());
}

/// Wrapping is one-to-one on each variant.
pub proof fn lemma_wrap_injective<T: WrapBase>(a: T, b: T)
    requires
        a.wrap_spec() == b.wrap_spec(),
    ensures
        a == b,
{
    T::lemma_round_trip(a);
    T::lemma_round_trip(b);
}

} // verus!
