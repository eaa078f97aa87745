//! Translation of a claimed origin into a local authorisation identity.
use vstd::prelude::*;
use crate::location::{Junction, Location, LocationModel, NetworkId};

verus! {

/// How a message asks its origin to be interpreted.
#[derive(Debug, Clone, Copy, PartialEq, Eq, Structural)]
pub enum OriginKind {
    Native,
    SovereignAccount,
    Superuser,
    Xcm,
}

/// A local authorisation identity.
#[derive(Debug, Clone, Copy, PartialEq, Eq, Structural)]
pub enum LocalOrigin {
    Root,
    Relay,
    Signed(u64),
    Parachain(u32),
}

/// The account that a location maps to, if it has one: siblings at 2000
/// plus their id, local accounts at their index, children at 1000 plus their
/// id, the local domain at 3000, the parent at 3001, and the Kusama and
/// Polkadot consensus systems, seen from the universal root at depth
/// `depth`, at 4000 and 4001.
pub open spec fn account_of(l: LocationModel, depth: nat) -> Option<u64> {
    if l.parents == 1 && l.interior.len() == 1 && l.interior[0] is Parachain {
        Some((2000 + l.interior[0]->Parachain_0) as u64)
    } else if l.parents == 0 && l.interior.len() == 1 && l.interior[0] is AccountIndex64 {
        Some(l.interior[0]->AccountIndex64_0)
    } else if l.parents == 0 && l.interior.len() == 1 && l.interior[0] is Parachain {
        Some((1000 + l.interior[0]->Parachain_0) as u64)
    } else if l.parents == 0 && l.interior.len() == 0 {
        Some(3000)
    } else if l.parents == 1 && l.interior.len() == 0 {
        Some(3001)
    } else if l.parents != depth || l.interior.len() == 0 {
        None
    } else if l.interior[0] == Junction::GlobalConsensus(NetworkId::Kusama) {
        Some(4000)
    } else if l.interior[0] == Junction::GlobalConsensus(NetworkId::Polkadot) {
        Some(4001)
    } else {
        None
    }
}

/// The identity that `kind` and `l` resolve to, if any.
pub open spec fn converted(kind: OriginKind, l: LocationModel, depth: nat) -> Option<LocalOrigin> {
    match kind {
        OriginKind::Superuser => Some(LocalOrigin::Root),
        OriginKind::SovereignAccount => match account_of(l, depth) {
            Some(a) => Some(LocalOrigin::Signed(a)),
            None => None,
        },
        OriginKind::Native => if l.parents == 0 && l.interior.len() == 1 && l.interior[0] is Parachain {
            Some(LocalOrigin::Parachain(l.interior[0]->Parachain_0))
        } else if l.parents == 1 && l.interior.len() == 0 {
            Some(LocalOrigin::Relay)
        } else if l.parents == 0 && l.interior.len() == 1 && l.interior[0] is AccountIndex64 {
            Some(LocalOrigin::Signed(l.interior[0]->AccountIndex64_0))
        } else {
            None
        },
        OriginKind::Xcm => None,
    }
}

/// Converts claimed origins, relative to the universal location of this
/// domain.
pub struct OriginConverter {
    pub universal: Vec<Junction>,
}

impl OriginConverter {
    /// A converter for the domain at `universal`.
    pub fn new(universal: Vec<Junction>) -> (r: OriginConverter)
        ensures
            r.universal@ == universal@,
    {
        OriginConverter { universal }
    }

    /// The account that `l` maps to, or `l` back where it has none.
    pub fn to_account(&self, l: Location) -> (r: Result<u64, Location>)
        ensures
            match r {
                Ok(a) => account_of(l@, self.universal@.len()) == Some(a),
                Err(back) => account_of(l@, self.universal@.len()).is_none() && back@ == l@,
            },
    {
        match l.single_junction() {
            Some(Junction::Parachain(id)) => {
                if l.parents == 1 {
                    return Ok(2000 + id as u64);
                } else if l.parents == 0 {
                    return Ok(1000 + id as u64);
                }
            },
            Some(Junction::AccountIndex64(index)) => {
                if l.parents == 0 {
                    return Ok(index);
                }
            },
            _ => {},
        }
        if l.interior.len() == 0 {
            if l.parents == 0 {
                return Ok(3000);
            } else if l.parents == 1 {
                return Ok(3001);
            }
        }
        if l.parents as usize != self.universal.len() {
            return Err(l);
        }
        match l.first_interior() {
            Some(Junction::GlobalConsensus(NetworkId::Kusama)) => Ok(4000),
            Some(Junction::GlobalConsensus(NetworkId::Polkadot)) => Ok(4001),
            _ => Err(l),
        }
    }

    /// Resolves `origin` claimed as `kind` to a local identity, or hands
    /// `origin` back unchanged where no rule applies.
    pub fn convert_origin(&self, origin: Location, kind: OriginKind) -> (r: Result<LocalOrigin, Location>)
        ensures
            match r {
                Ok(o) => converted(kind, origin@, self.universal@.len()) == Some(o),
                Err(back) => converted(kind, origin@, self.universal@.len()).is_none() && back@ == origin@,
            },
    {
        match kind {
            OriginKind::Superuser => Ok(LocalOrigin::Root),
            OriginKind::SovereignAccount => match self.to_account(origin) {
                Ok(a) => Ok(LocalOrigin::Signed(a)),
                Err(back) => Err(back),
            },
            OriginKind::Native => {
                match origin.single_junction() {
                    Some(Junction::Parachain(id)) => {
                        if origin.parents == 0 {
                            return Ok(LocalOrigin::Parachain(id));
                        }
                    },
                    Some(Junction::AccountIndex64(index)) => {
                        if origin.parents == 0 {
                            return Ok(LocalOrigin::Signed(index));
                        }
                    },
                    _ => {},
                }
                if origin.parents == 1 && origin.interior.len() == 0 {
                    return Ok(LocalOrigin::Relay);
                }
                Err(origin)
            },
            OriginKind::Xcm => Err(origin),
        }
    }
}

} // verus!
