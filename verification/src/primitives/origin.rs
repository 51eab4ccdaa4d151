//! Origin checks that the runtime wires into the protocol's pallets.

use vstd::prelude::*;
use vstd::std_specs::cmp::PartialEqSpec;

verus! {

/// Origin of a call, as far as the system decides it.
#[derive(Clone, Copy, PartialEq, Eq, Structural, Debug)]
pub enum RawOrigin<AccountId> {
    /// The system itself.
    Root,
    /// A transaction signed by an account.
    Signed(AccountId),
    /// No account.
    Unsigned,
}

/// Admits `Root` or a signed origin that owns a stablecoin.
pub struct EnsureStableOwnerOrRoot;

impl EnsureStableOwnerOrRoot {
    /// Who a call from `system` acts for on a stablecoin that `owner` owns, if it may act at all:
    /// nobody for `Root`, the owner for a call that they signed.
    pub open spec fn admitted<AccountId: PartialEq>(
        system: Option<RawOrigin<AccountId>>,
        owner: Option<AccountId>,
    ) -> Option<Option<AccountId>> {
        match system {
            Some(RawOrigin::Root) => Some(None),
            Some(RawOrigin::Signed(who)) => match owner {
                Some(owner) => if owner.eq_spec(&who) {
                    Some(Some(who))
                } else {
                    None
                },
                None => None,
            },
            _ => None,
        }
    }

    /// Checks a call's `origin`, of which `system` is the system's part, on a stablecoin that
    /// `owner` owns.
    ///
    /// `Root` succeeds with `None` (creation without a deposit) and the stablecoin's owner succeeds
    /// with themselves (creation against a refundable deposit). Every other origin is rejected and
    /// handed back unchanged.
    pub fn try_origin<Origin, AccountId: Copy + PartialEq>(
        origin: Origin,
        system: Option<RawOrigin<AccountId>>,
        owner: Option<AccountId>,
    ) -> (admitted: Result<Option<AccountId>, Origin>)
        ensures
            AccountId::obeys_eq_spec() ==> admitted == (match Self::admitted(system, owner) {
                Some(success) => Ok(success),
                None => Err(origin),
            }),
    {
        match system {
            Some(RawOrigin::Root) => Ok(None),
            Some(RawOrigin::Signed(who)) => {
                match owner {
                    Some(owner) => {
                        if owner == who {
                            Ok(Some(who))
                        } else {
                            Err(origin)
                        }
                    },
                    None => Err(origin),
                }
            },
            _ => Err(origin),
        }
    }
}

/// `Root` always acts for nobody, and whoever signed acts for themselves exactly on a stablecoin that
/// they own; nobody else acts, and nobody acts for another.
pub proof fn law_only_root_and_the_owner_are_admitted(
    system: Option<RawOrigin<u64>>,
    owner: Option<u64>,
)
    ensures
        ({
            let admitted = EnsureStableOwnerOrRoot::admitted(system, owner);
            &&& admitted == Some(None::<u64>) <==> system == Some(RawOrigin::<u64>::Root)
            &&& admitted matches Some(Some(who)) ==> owner == Some(who) && system == Some(
                RawOrigin::Signed(who),
            )
            &&& system matches Some(RawOrigin::Signed(who)) ==> (admitted is None <==> owner != Some(
                who,
            ))
            &&& system is None || system == Some(RawOrigin::<u64>::Unsigned) ==> admitted is None
        }),
{
}

} // verus!
