//! Static identity of services and characteristics, declared once at
//! configuration time and never mutated afterwards.

use vstd::prelude::*;

verus! {

/// The operations a characteristic allows.
#[derive(Clone, Copy, Debug, PartialEq, Eq, Structural)]
pub struct CharProps {
    pub read: bool,
    pub write: bool,
    pub notify: bool,
    pub indicate: bool,
}

/// One addressable data point within a service: its 128-bit identifier, the
/// operations it allows, the largest value it accepts, and whether the
/// driver answers reads and writes itself (`auto_respond`) or the owning
/// service supplies each response.
#[derive(Clone, Copy, Debug, PartialEq, Eq, Structural)]
pub struct CharacteristicDescriptor {
    pub uuid: u128,
    pub props: CharProps,
    pub max_len: u16,
    pub auto_respond: bool,
}

impl CharacteristicDescriptor {
    /// Attribute handles this characteristic consumes: one declaration, one
    /// value, and one client-configuration descriptor when it can notify or
    /// indicate.
    pub open spec fn attr_cost(self) -> int {
        if self.props.notify || self.props.indicate {
            3
        } else {
            2
        }
    }
}

/// Static identity of one logical service: its 128-bit identifier, an
/// instance discriminator, a primary/secondary flag, and the ordered list of
/// characteristics it will request.  Immutable after registration.
#[derive(Clone, Debug, PartialEq, Eq)]
pub struct ServiceDescriptor {
    pub uuid: u128,
    pub inst_id: u8,
    pub is_primary: bool,
    pub characteristics: Vec<CharacteristicDescriptor>,
}

/// Total attribute handles the declarations of `chars` consume, including
/// the one handle of the service declaration itself.
pub open spec fn attr_budget(chars: Seq<CharacteristicDescriptor>) -> int
    decreases chars.len(),
{
    if chars.len() == 0 {
        1
    } else {
        attr_budget(chars.drop_last()) + chars.last().attr_cost()
    }
}

/// Whether the characteristic identifiers of `chars` are pairwise distinct.
pub open spec fn chars_unique(chars: Seq<CharacteristicDescriptor>) -> bool {
    forall|i: int, j: int|
        0 <= i < j < chars.len() ==> chars[i].uuid != chars[j].uuid
}

/// Some characteristic in `chars` carries `uuid`.
pub open spec fn has_char(chars: Seq<CharacteristicDescriptor>, uuid: u128) -> bool {
    exists|k: int| 0 <= k < chars.len() && (#[trigger] chars[k]).uuid == uuid
}

/// The position of the characteristic carrying `uuid`; unique when the
/// identifiers are pairwise distinct.
pub open spec fn char_pos(chars: Seq<CharacteristicDescriptor>, uuid: u128) -> int {
    choose|k: int| 0 <= k < chars.len() && (#[trigger] chars[k]).uuid == uuid
}

impl ServiceDescriptor {
    /// Whether this descriptor is acceptable configuration: characteristic
    /// identifiers are pairwise distinct and the declarations fit the
    /// driver's 16-bit attribute handle budget.
    pub open spec fn well_formed(self) -> bool {
        &&& chars_unique(self.characteristics@)
        &&& attr_budget(self.characteristics@) <= u16::MAX
    }

    /// Attribute handles to reserve when asking the driver to create this
    /// service.
    pub fn attr_count(&self) -> (n: u16)
        requires
            attr_budget(self.characteristics@) <= u16::MAX,
        ensures
            n == attr_budget(self.characteristics@),
    {
        let mut n: u16 = 1;
        let mut i: usize = 0;
        while i < self.characteristics.len()
            invariant
                i <= self.characteristics@.len(),
                attr_budget(self.characteristics@) <= u16::MAX,
                n == attr_budget(self.characteristics@.take(i as int)),
            decreases self.characteristics@.len() - i,
        {
            proof {
                lemma_attr_budget_monotonic(self.characteristics@, i + 1);
                assert(self.characteristics@.take(i + 1).drop_last()
                    =~= self.characteristics@.take(i as int));
            }
            let c = self.characteristics[i];
            if c.props.notify || c.props.indicate {
                n = n + 3;
            } else {
                n = n + 2;
            }
            i = i + 1;
        }
        proof {
            assert(self.characteristics@.take(self.characteristics@.len() as int)
                =~= self.characteristics@);
        }
        n
    }
}

/// Every prefix of a declaration list consumes at most the budget of the
/// whole list.
pub proof fn lemma_attr_budget_monotonic(chars: Seq<CharacteristicDescriptor>, n: int)
    requires
        0 <= n <= chars.len(),
    ensures
        attr_budget(chars.take(n)) <= attr_budget(chars),
        attr_budget(chars.take(n)) >= 1,
    decreases chars.len(),
{
    if n == chars.len() {
        assert(chars.take(n) =~= chars);
        lemma_attr_budget_positive(chars);
    } else {
        assert(chars.drop_last().take(n) =~= chars.take(n));
        lemma_attr_budget_monotonic(chars.drop_last(), n);
    }
}

/// The attribute budget counts at least the service declaration.
proof fn lemma_attr_budget_positive(chars: Seq<CharacteristicDescriptor>)
    ensures
        attr_budget(chars) >= 1,
    decreases chars.len(),
{
    if chars.len() > 0 {
        lemma_attr_budget_positive(chars.drop_last());
    }
}

/// Each declared characteristic consumes at least two attribute handles,
/// so the budget bounds how many characteristics one service can declare.
pub proof fn lemma_attr_budget_lower(chars: Seq<CharacteristicDescriptor>)
    ensures
        attr_budget(chars) >= 1 + 2 * chars.len(),
    decreases chars.len(),
{
    if chars.len() > 0 {
        lemma_attr_budget_lower(chars.drop_last());
    }
}

} // verus!
