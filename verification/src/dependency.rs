//! A dependency as the manifest declares it.

use vstd::prelude::*;

use crate::staleness::{lockfile_is_stale, stale};

verus! {

/// Where a piece of text stands in the manifest.
#[derive(Clone, Copy, Debug, PartialEq, Eq)]
pub struct Span {
    pub line: u32,
    pub line_start: u32,
    pub line_end: u32,
}

/// One dependency of a manifest.
#[derive(Clone, Debug, PartialEq, Eq)]
pub struct Dependency {
    pub name: String,
    /// The version or the requirement that the manifest declares.
    pub version: String,
    pub name_span: Span,
    pub version_span: Span,
    pub dev: bool,
    pub optional: bool,
    pub registry: Option<String>,
    /// The exact version that the lockfile pins, once it is known.
    pub resolved_version: Option<String>,
    pub has_additional_version_constraints: bool,
}

impl Dependency {
    /// The pinned version where there is one, else the declared one.
    pub open spec fn effective(self) -> Seq<char> {
        match self.resolved_version {
            Some(v) => v@,
            None => self.version@,
        }
    }

    /// The version to report for this dependency: the pinned one where it is
    /// known, else the declared one.
    pub fn effective_version(&self) -> (r: &str)
        ensures
            r@ == self.effective(),
    {
        match &self.resolved_version {
            Some(v) => v.as_str(),
            None => self.version.as_str(),
        }
    }
}

/// `dep` once the lockfile has answered `pin` for it: a pin that is not stale
/// becomes the resolved version, and nothing else changes.
pub open spec fn with_pin(dep: Dependency, pin: Option<String>) -> Dependency {
    match pin {
        Some(v) if !stale(dep.version@, v@) => Dependency { resolved_version: Some(v), ..dep },
        _ => dep,
    }
}

/// Each dependency once the lockfile has answered its pin.
pub open spec fn with_pins(deps: Seq<Dependency>, pins: Seq<Option<String>>) -> Seq<Dependency> {
    Seq::new(deps.len(), |i: int| with_pin(deps[i], pins[i]))
}

/// Records what the lockfile pins for a dependency. A dependency without a pin
/// is left unchanged, and so is one whose pin is older than what it declares.
pub fn apply_pin(dep: &mut Dependency, pin: Option<String>)
    ensures
        *final(dep) == with_pin(*old(dep), pin),
{
    if let Some(v) = pin {
        if !lockfile_is_stale(dep.version.as_str(), v.as_str()) {
            dep.resolved_version = Some(v);
        }
    }
}

/// A dependency for which the lockfile has no pin is left unchanged.
pub proof fn no_pin_changes_nothing(dep: Dependency)
    ensures
        with_pin(dep, None) == dep,
{
}

/// A stale pin changes nothing: the version reported stays what it was.
pub proof fn stale_pin_changes_nothing(dep: Dependency, pin: String)
    requires
        stale(dep.version@, pin@),
    ensures
        with_pin(dep, Some(pin)) == dep,
        with_pin(dep, Some(pin)).effective() == dep.effective(),
{
}

/// A pin that is not stale is the version reported.
pub proof fn fresh_pin_is_reported(dep: Dependency, pin: String)
    requires
        !stale(dep.version@, pin@),
    ensures
        with_pin(dep, Some(pin)).resolved_version == Some(pin),
        with_pin(dep, Some(pin)).effective() == pin@,
{
}

/// Whatever the pin, nothing but the resolved version changes, and a resolved
/// version that is new is not stale.
pub proof fn only_the_resolved_version_changes(dep: Dependency, pin: Option<String>)
    ensures
        with_pin(dep, pin) == (Dependency {
            resolved_version: with_pin(dep, pin).resolved_version,
            ..dep
        }),
        with_pin(dep, pin).resolved_version != dep.resolved_version ==> (with_pin(
            dep,
            pin,
        ).resolved_version matches Some(v) && !stale(dep.version@, v@)),
{
}

/// Recording the same pin a second time changes nothing.
pub proof fn recording_a_pin_twice_is_recording_it_once(dep: Dependency, pin: Option<String>)
    ensures
        with_pin(with_pin(dep, pin), pin) == with_pin(dep, pin),
{
}

/// Recording pins keeps the dependencies and their order, changes nothing but
/// resolved versions, and leaves a dependency without a pin, or with a stale one,
/// as it was.
pub proof fn recording_pins_touches_fresh_pins_only(
    deps: Seq<Dependency>,
    pins: Seq<Option<String>>,
    i: int,
)
    requires
        pins.len() == deps.len(),
        0 <= i < deps.len(),
    ensures
        with_pins(deps, pins).len() == deps.len(),
        with_pins(deps, pins)[i] == (Dependency {
            resolved_version: with_pins(deps, pins)[i].resolved_version,
            ..deps[i]
        }),
        pins[i] is None ==> with_pins(deps, pins)[i] == deps[i],
        pins[i] matches Some(v) ==> {
            if stale(deps[i].version@, v@) {
                with_pins(deps, pins)[i] == deps[i]
            } else {
                with_pins(deps, pins)[i].resolved_version == Some(v)
            }
        },
{
}

} // verus!
