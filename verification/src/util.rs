//! Index and alignment arithmetic shared by the spaces.
use crate::encoding::Layout;
use vstd::prelude::*;

verus! {

/// Number of bytes to skip from `addr` to reach a multiple of `align`.
pub open spec fn padding_for(addr: nat, align: nat) -> nat
    recommends
        align > 0,
{
    if addr % align == 0 {
        0
    } else {
        (align - addr % align) as nat
    }
}

pub proof fn lemma_padding(addr: nat, align: nat)
    requires
        align > 0,
    ensures
        padding_for(addr, align) < align,
        (addr + padding_for(addr, align)) as int % (align as int) == 0,
{
    if addr % align != 0 {
        assert((addr + (align - addr % align)) % (align as int) == 0) by (nonlinear_arith)
            requires
                align > 0,
                addr % align != 0,
        {
            vstd::arithmetic::div_mod::lemma_fundamental_div_mod(addr as int, align as int);
            vstd::arithmetic::div_mod::lemma_mod_multiples_basic(addr as int / align as int + 1, align as int);
        }
    }
}

/// The number of padding bytes needed before a value of type `T` at position `addr`.
pub fn try_padding_for<T: Layout>(addr: usize) -> (r: usize)
    ensures
        r == padding_for(addr as nat, T::spec_align()),
        r < T::spec_align(),
{
    proof {
        T::lemma_align();
        lemma_padding(addr as nat, T::spec_align());
    }
    let align = T::align();
    let rem = addr % align;
    if rem == 0 {
        0
    } else {
        align - rem
    }
}

/// The number of bytes occupied by `size` values of type `T`.
pub fn value_index_to_byte_index<T: Layout>(size: usize) -> (r: usize)
    requires
        size * T::spec_size() <= usize::MAX,
    ensures
        r == size * T::spec_size(),
{
    size * T::size()
}

/// The number of values of type `T` needed to hold `size` bytes, rounded up; 0 for a type that
/// occupies no bytes.
pub open spec fn values_for_bytes(size: nat, type_size: nat) -> nat {
    if type_size == 0 {
        0
    } else {
        (size / type_size + if size % type_size > 0 {
            1nat
        } else {
            0nat
        }) as nat
    }
}

/// The number of values of type `T` needed to hold `size` bytes, rounded up; 0 for a type that
/// occupies no bytes.
pub fn byte_index_to_value_index<T: Layout>(size: usize) -> (r: usize)
    ensures
        r == values_for_bytes(size as nat, T::spec_size()),
{
    let type_size = T::size();
    if type_size == 0 {
        return 0;
    }
    assert(size % type_size > 0 ==> size / type_size < size) by (nonlinear_arith)
        requires
            type_size >= 1,
    {
        if size % type_size > 0 {
            assert(type_size >= 2);
        }
    }
    size / type_size + if size % type_size > 0 {
        1
    } else {
        0
    }
}

} // verus!

verus! {

/// A position aligned for an atom header is aligned for every stored value.
pub proof fn lemma_padding_at_atom_boundary(addr: nat, align: nat)
    requires
        addr % 8 == 0,
        align == 1 || align == 2 || align == 4 || align == 8,
    ensures
        padding_for(addr, align) == 0,
{
    assert(addr % align == 0) by (nonlinear_arith)
        requires
            addr % 8 == 0,
            align == 1 || align == 2 || align == 4 || align == 8,
    {
        let q = addr / 8;
        vstd::arithmetic::div_mod::lemma_fundamental_div_mod(addr as int, 8);
        vstd::arithmetic::div_mod::lemma_mod_multiples_basic(q as int * (8int / align as int), align as int);
    }
}

} // verus!
