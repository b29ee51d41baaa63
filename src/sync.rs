use vstd::prelude::*;

use crate::config::{find_device, first_listing, is_listed, Config, ScheduleEntry};
use crate::state::PushState;

verus! {

/// Name of the display target that a rule's `stage_left` image is for.
pub const STAGE_LEFT: &'static str = "stage-left";

/// Name of the display target that a rule's `stage_right` image is for.
pub const STAGE_RIGHT: &'static str = "stage-right";

/// What a pass does for one target of the active rule.
pub enum TargetAction {
    /// The rule assigns no image to the target.
    Unassigned,
    /// The registry does not list the target: skip it with a warning.
    UnknownDevice,
    /// The target already shows the assigned image: nothing to send.
    AlreadyShowing,
    /// Prepare the image at `path` and send it to the display at `ip`.
    Push { ip: String, path: String },
}

/// One target of the active rule and what a pass does for it.
pub struct TargetStep {
    pub name: String,
    pub action: TargetAction,
}

/// `a` is what a pass does for target `name`, assigned `assigned`, given the
/// registry `devices` and the recorded images `store`.
pub open spec fn is_action_for(
    a: TargetAction,
    devices: Seq<(String, crate::config::DeviceConfig)>,
    store: Map<Seq<char>, Seq<char>>,
    name: Seq<char>,
    assigned: Option<String>,
) -> bool {
    match assigned {
        None => a is Unassigned,
        Some(p) => if !is_listed(devices, name) {
            a is UnknownDevice
        } else if store.contains_key(name) && store[name] == p@ {
            a is AlreadyShowing
        } else {
            match a {
                TargetAction::Push { ip, path } => path@ == p@ && exists|i: int|
                    first_listing(devices, name, i) && ip@ == #[trigger] devices[i].1.ip@,
                _ => false,
            }
        },
    }
}

/// Decides what a pass does for target `name`, assigned `assigned`.
pub fn decide_target(config: &Config, state: &PushState, name: &str, assigned: &Option<String>) -> (r:
    TargetAction)
    requires
        state.wf(),
    ensures
        is_action_for(r, config.devices@, state@, name@, *assigned),
{
    let path = match assigned {
        None => {
            return TargetAction::Unassigned;
        },
        Some(p) => p,
    };
    let i = match find_device(&config.devices, name) {
        None => {
            return TargetAction::UnknownDevice;
        },
        Some(i) => i,
    };
    assert(is_listed(config.devices@, name@));
    match state.get(name) {
        Some(last) => {
            if *last == *path {
                return TargetAction::AlreadyShowing;
            }
        },
        None => {},
    }
    let ip = config.devices[i].1.ip.clone();
    assert(first_listing(config.devices@, name@, i as int) && ip@ == config.devices@[i as int].1.ip@);
    TargetAction::Push { ip, path: path.clone() }
}

/// The targets of rule `entry`, in the order a pass handles them, each with
/// what the pass does for it.
pub fn plan_targets(config: &Config, entry: &ScheduleEntry, state: &PushState) -> (r: Vec<
    TargetStep,
>)
    requires
        state.wf(),
    ensures
        r@.len() == 2,
        r@[0].name@ == STAGE_LEFT@,
        is_action_for(r@[0].action, config.devices@, state@, STAGE_LEFT@, entry.stage_left),
        r@[1].name@ == STAGE_RIGHT@,
        is_action_for(r@[1].action, config.devices@, state@, STAGE_RIGHT@, entry.stage_right),
{
    let left = decide_target(config, state, STAGE_LEFT, &entry.stage_left);
    let right = decide_target(config, state, STAGE_RIGHT, &entry.stage_right);
    vec![
        TargetStep { name: String::from_str(STAGE_LEFT), action: left },
        TargetStep { name: String::from_str(STAGE_RIGHT), action: right },
    ]
}

/// A pass never sends an image to a target whose record already holds it.
pub proof fn lemma_no_push_when_already_showing(
    a: TargetAction,
    devices: Seq<(String, crate::config::DeviceConfig)>,
    store: Map<Seq<char>, Seq<char>>,
    name: Seq<char>,
    assigned: String,
)
    requires
        store.contains_key(name),
        store[name] == assigned@,
        is_action_for(a, devices, store, name, Some(assigned)),
    ensures
        !(a is Push),
{
}

/// The record of a pass in progress: what each target shows, and whether any
/// target was updated, which decides whether the record is persisted.
pub struct Pass {
    pub state: PushState,
    pub changed: bool,
}

impl Pass {
    /// A pass over the record `state`, before any update.
    pub fn start(state: PushState) -> (r: Pass)
        ensures
            r.state == state,
            !r.changed,
    {
        Pass { state, changed: false }
    }

    /// Notes that target `name` was sent the image at `path`.
    pub fn pushed(&mut self, name: String, path: String)
        requires
            old(self).state.wf(),
        ensures
            final(self).state.wf(),
            final(self).state@ == old(self).state@.insert(name@, path@),
            final(self).changed,
    {
        self.state.record(name, path);
        self.changed = true;
    }

    /// Whether the record must be persisted at the end of the pass.
    pub fn needs_save(&self) -> (r: bool)
        ensures
            r == self.changed,
    {
        self.changed
    }
}

} // verus!
