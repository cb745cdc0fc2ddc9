//! The requests that a client can make, by what they are about.
//!
//! A handler changes the records, answers, and says what is to be done outside.
pub mod credentials;
pub mod discovery;
pub mod hosts;
pub mod mounts;
pub mod system;
pub mod tunnel_batch;
pub mod tunnel_settings;
pub mod tunnels;

use crate::json::{Json, JsonView};
use crate::model::{Error, ErrorView, outcome};
use crate::starts::{OrderView, StartOrder, opt_order};
use vstd::prelude::*;

verus! {

/// What a handled request asks for outside.
#[derive(Debug, PartialEq)]
pub struct Effects {
    /// Whether the tunnel list is to be saved.
    pub persist: bool,
    /// The process to kill.
    pub kill: Option<u64>,
    /// The forward to launch.
    pub start: Option<StartOrder>,
}

/// What effects say.
#[verifier::ext_equal]
pub struct EffectsView {
    pub persist: bool,
    pub kill: Option<u64>,
    pub start: Option<OrderView>,
}

impl View for Effects {
    type V = EffectsView;

    open spec fn view(&self) -> EffectsView {
        EffectsView { persist: self.persist, kill: self.kill, start: opt_order(self.start) }
    }
}

/// Nothing to do outside.
pub open spec fn no_effects() -> EffectsView {
    EffectsView { persist: false, kill: None, start: None }
}

/// The answer to a request, and what it asks for outside.
#[derive(Debug, PartialEq)]
pub struct Reply {
    pub result: Result<Json, Error>,
    pub effects: Effects,
}

/// What a reply says.
#[verifier::ext_equal]
pub struct ReplyView {
    pub result: Result<JsonView, ErrorView>,
    pub effects: EffectsView,
}

impl View for Reply {
    type V = ReplyView;

    open spec fn view(&self) -> ReplyView {
        ReplyView { result: outcome(self.result), effects: self.effects@ }
    }
}

/// The request is refused.
pub open spec fn refused(e: ErrorView) -> ReplyView {
    ReplyView { result: Err(e), effects: no_effects() }
}

/// The request is answered and nothing is to be done.
pub open spec fn answered(j: JsonView) -> ReplyView {
    ReplyView { result: Ok(j), effects: no_effects() }
}

/// The request is answered and the tunnel list is to be saved.
pub open spec fn saved(j: JsonView) -> ReplyView {
    ReplyView {
        result: Ok(j),
        effects: EffectsView { persist: true, kill: None, start: None },
    }
}

impl Reply {
    /// The request is refused.
    pub fn refused(e: Error) -> (r: Reply)
        ensures
            r@ == refused(e@),
    {
        Reply { result: Err(e), effects: Effects { persist: false, kill: None, start: None } }
    }

    /// The request is answered and nothing is to be done.
    pub fn answered(j: Json) -> (r: Reply)
        ensures
            r@ == answered(j@),
    {
        Reply { result: Ok(j), effects: Effects { persist: false, kill: None, start: None } }
    }

    /// The request is answered and the tunnel list is to be saved.
    pub fn saved(j: Json) -> (r: Reply)
        ensures
            r@ == saved(j@),
    {
        Reply { result: Ok(j), effects: Effects { persist: true, kill: None, start: None } }
    }
}

} // verus!
