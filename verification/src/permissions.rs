//! The permission engine: a pure decision over an acting identity (possibly
//! anonymous) and an action on a resource. Safe to call speculatively; it
//! mutates nothing.

use vstd::prelude::*;
use crate::basket::{BasketRecord, BasketV};
use crate::collaborators::str_eq;
use crate::user::{AuthUser, PubUser, UserV};

verus! {

/// Specification view of an action.
pub enum ActionV {
    CreateBasket { owner: Seq<char> },
    ViewBasket { owner: UserV, basket: BasketV },
}

/// An action an identity may or may not perform.
pub enum UserAction {
    /// Creating a new basket for the given owner (a username).
    CreateBasket { owner: String },
    /// Viewing a basket of the given owner.
    ViewBasket { owner: PubUser, basket: BasketRecord },
}

impl View for UserAction {
    type V = ActionV;

    open spec fn view(&self) -> ActionV {
        match self {
            UserAction::CreateBasket { owner } => ActionV::CreateBasket { owner: owner@ },
            UserAction::ViewBasket { owner, basket } => ActionV::ViewBasket {
                owner: owner@,
                basket: basket@,
            },
        }
    }
}

/// The permission policy. Creating a basket demands an acting identity whose
/// username equals the owner. Viewing a basket demands that the basket is
/// public, or that the acting identity is its owner.
pub open spec fn spec_has_permission(actor: Option<UserV>, action: ActionV) -> bool {
    match action {
        ActionV::CreateBasket { owner } => match actor {
            Some(u) => owner == u.username,
            None => false,
        },
        ActionV::ViewBasket { owner, basket } => basket.public || (match actor {
            Some(u) => owner.username == u.username,
            None => false,
        }),
    }
}

/// The view of an optional acting identity.
pub open spec fn actor_view(actor: Option<&AuthUser>) -> Option<UserV> {
    match actor {
        Some(u) => Some(u.user@),
        None => None,
    }
}

/// Decides whether `actor` (or anonymity) permits `action`.
pub fn has_permission(actor: Option<&AuthUser>, action: &UserAction) -> (r: bool)
    ensures
        r == spec_has_permission(actor_view(actor), action@),
{
    match action {
        UserAction::CreateBasket { owner } => match actor {
            Some(u) => str_eq(owner.as_str(), u.username()),
            None => false,
        },
        UserAction::ViewBasket { owner, basket } => {
            if basket.is_public() {
                true
            } else {
                match actor {
                    Some(u) => str_eq(owner.username(), u.username()),
                    None => false,
                }
            }
        },
    }
}

} // verus!
