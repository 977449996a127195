//! The scene's state and its rule of change: the light follows the pointer
//! while it is dragged, and the occluder moves up and down between the edges
//! of the frame.

use vstd::prelude::*;
use crate::config::Config;
use crate::geometry::{in_range, is_within_radius, within_radius};

verus! {

/// What the pointer did during one tick. Only the primary button counts.
#[derive(Clone, Copy, Debug, PartialEq, Eq)]
pub struct PointerInput {
    /// The button went down during this tick.
    pub pressed: bool,
    /// The button is down.
    pub held: bool,
    /// The button went up during this tick.
    pub released: bool,
    /// Where the pointer is, in units, if it is over the frame.
    pub cursor: Option<(i64, i64)>,
}

impl PointerInput {
    /// The pointer's position, if any, is within the coordinate range.
    pub open spec fn wf(self) -> bool {
        match self.cursor {
            Some((x, y)) => in_range(x as int) && in_range(y as int),
            None => true,
        }
    }

    /// The button went down during this tick with the pointer within distance
    /// `r` of `(x, y)`.
    pub open spec fn presses_within(self, x: int, y: int, r: int) -> bool {
        self.pressed && match self.cursor {
            Some((px, py)) => within_radius(px as int, py as int, x, y, r),
            None => false,
        }
    }

    /// Decides whether the pointer's position is within the coordinate range.
    pub fn is_valid(&self) -> (valid: bool)
        ensures
            valid == self.wf(),
    {
        match self.cursor {
            Some((x, y)) => {
                let lim: i64 = crate::geometry::COORD_LIMIT;
                x >= -lim && x <= lim && y >= -lim && y <= lim
            },
            None => true,
        }
    }

    /// A tick on which the pointer did nothing.
    pub fn idle() -> (input: PointerInput)
        ensures
            input == (PointerInput { pressed: false, held: false, released: false, cursor: None }),
    {
        PointerInput { pressed: false, held: false, released: false, cursor: None }
    }
}

/// The state of the scene between two ticks.
#[derive(Clone, Copy, Debug, PartialEq, Eq)]
pub struct Scene {
    /// The parameters the scene was made with; no tick changes them.
    pub config: Config,
    /// Centre of the light.
    pub light_x: i64,
    pub light_y: i64,
    /// The light is being dragged: a press fell on it and no release followed.
    pub dragging: bool,
    /// Vertical centre of the occluder.
    pub occluder_y: i64,
    /// Vertical velocity of the occluder, in units per tick.
    pub occluder_velocity_y: i64,
}

impl Scene {
    /// The occluder's centre is beyond one of the two edges it bounces off.
    pub open spec fn beyond_edge(config: Config, y: int) -> bool {
        y < config.occluder_min_y() || y > config.occluder_max_y()
    }

    /// The occluder is between the two edges, or went beyond one by its last
    /// step and comes back between them by its next.
    pub open spec fn occluder_on_course(self) -> bool {
        let y = self.occluder_y as int;
        let v = self.occluder_velocity_y as int;
        !Self::beyond_edge(self.config, y) || !Self::beyond_edge(self.config, y + v)
    }

    /// The state is one that a scene can reach: valid parameters, a light
    /// within the coordinate range, the starting speed in one of the two
    /// directions, and an occluder between the edges or on its way back.
    pub open spec fn wf(self) -> bool {
        &&& self.config.wf()
        &&& in_range(self.light_x as int)
        &&& in_range(self.light_y as int)
        &&& (self.occluder_velocity_y == self.config.occluder_velocity_y
            || self.occluder_velocity_y == -self.config.occluder_velocity_y)
        &&& self.occluder_on_course()
    }

    /// The scene before its first tick.
    pub open spec fn initial(config: Config) -> Scene {
        Scene {
            config,
            light_x: config.light_x,
            light_y: config.light_y,
            dragging: false,
            occluder_y: config.occluder_y,
            occluder_velocity_y: config.occluder_velocity_y,
        }
    }

    /// The press of this tick, if any, fell on the light's disc.
    pub open spec fn grabs(self, input: PointerInput) -> bool {
        input.presses_within(
            self.light_x as int,
            self.light_y as int,
            self.config.light_radius as int,
        )
    }

    /// The light follows the pointer on this tick: it is dragged, counting a
    /// press of this same tick, and the button is down.
    pub open spec fn follows(self, input: PointerInput) -> bool {
        (self.dragging || self.grabs(input)) && input.held && input.cursor.is_some()
    }

    /// The light's centre after a tick with `input`.
    pub open spec fn light_after(self, input: PointerInput) -> (i64, i64) {
        if self.follows(input) {
            input.cursor.unwrap()
        } else {
            (self.light_x, self.light_y)
        }
    }

    /// Whether the light is dragged after a tick with `input`.
    pub open spec fn dragging_after(self, input: PointerInput) -> bool {
        (self.dragging || self.grabs(input)) && !input.released
    }

    /// The occluder's centre after one step, as an integer.
    pub open spec fn stepped_y(self) -> int {
        self.occluder_y + self.occluder_velocity_y
    }

    /// The step of this tick takes the occluder beyond an edge, so that its
    /// velocity is reversed.
    pub open spec fn bounces(self) -> bool {
        Self::beyond_edge(self.config, self.stepped_y())
    }

    /// The occluder's velocity after a tick.
    pub open spec fn velocity_after(self) -> int {
        if self.bounces() {
            -self.occluder_velocity_y
        } else {
            self.occluder_velocity_y as int
        }
    }

    /// The scene after one tick with `input`: a press on the light starts a
    /// drag; a dragged light goes where the held pointer is; a release ends
    /// the drag; the occluder takes one step, and reverses if that step took
    /// it beyond an edge. The occluder is not moved back to the edge.
    pub open spec fn after(self, input: PointerInput) -> Scene {
        Scene {
            config: self.config,
            light_x: self.light_after(input).0,
            light_y: self.light_after(input).1,
            dragging: self.dragging_after(input),
            occluder_y: self.stepped_y() as i64,
            occluder_velocity_y: self.velocity_after() as i64,
        }
    }

    /// Makes the scene before its first tick, if the parameters describe one.
    pub fn new(config: Config) -> (scene: Option<Scene>)
        ensures
            config.wf() ==> scene == Some(Self::initial(config)),
            !config.wf() ==> scene.is_none(),
            scene.is_some() ==> scene.unwrap().wf(),
    {
        if !config.is_valid() {
            return None;
        }
        Some(
            Scene {
                config,
                light_x: config.light_x,
                light_y: config.light_y,
                dragging: false,
                occluder_y: config.occluder_y,
                occluder_velocity_y: config.occluder_velocity_y,
            },
        )
    }

    /// Decides whether the state is one that a scene can reach.
    pub fn is_valid(&self) -> (valid: bool)
        ensures
            valid == self.wf(),
    {
        if !self.config.is_valid() {
            return false;
        }
        let lim: i64 = crate::geometry::COORD_LIMIT;
        if self.light_x < -lim || self.light_x > lim || self.light_y < -lim || self.light_y > lim {
            return false;
        }
        let v: i64 = self.occluder_velocity_y;
        if v != self.config.occluder_velocity_y && v != -self.config.occluder_velocity_y {
            return false;
        }
        let y: i64 = self.occluder_y;
        let lo: i64 = self.config.occluder_radius;
        let hi: i64 = (self.config.height as i64) * (self.config.units_per_pixel as i64) - lo;
        if y < -2 * lim || y > 2 * lim {
            return false;
        }
        let next: i64 = y + v;
        (lo <= y && y <= hi) || (lo <= next && next <= hi)
    }

    /// Advances the scene by one tick.
    pub fn update(&mut self, input: &PointerInput)
        requires
            old(self).wf(),
            input.wf(),
        ensures
            *final(self) == old(self).after(*input),
            final(self).wf(),
    {
        if input.pressed {
            if let Some((mx, my)) = input.cursor {
                if is_within_radius(mx, my, self.light_x, self.light_y, self.config.light_radius) {
                    self.dragging = true;
                }
            }
        }
        if self.dragging && input.held {
            if let Some((mx, my)) = input.cursor {
                self.light_x = mx;
                self.light_y = my;
            }
        }
        if input.released {
            self.dragging = false;
        }
        self.occluder_y = self.occluder_y + self.occluder_velocity_y;
        let lo: i64 = self.config.occluder_radius;
        let hi: i64 = (self.config.height as i64) * (self.config.units_per_pixel as i64) - lo;
        if self.occluder_y < lo || self.occluder_y > hi {
            self.occluder_velocity_y = -self.occluder_velocity_y;
        }
    }
}

impl Scene {
    /// The scene after a run of ticks, one for each input in turn.
    pub open spec fn after_all(self, inputs: Seq<PointerInput>) -> Scene
        decreases inputs.len(),
    {
        if inputs.len() == 0 {
            self
        } else {
            self.after(inputs.first()).after_all(inputs.drop_first())
        }
    }
}

/// A tick takes a reachable state to a reachable state and leaves the
/// parameters as they are.
pub proof fn law_tick_keeps_state_reachable(scene: Scene, input: PointerInput)
    requires
        scene.wf(),
        input.wf(),
    ensures
        scene.after(input).wf(),
        scene.after(input).config == scene.config,
{
}

/// A run of ticks takes a reachable state to a reachable state and leaves the
/// parameters as they are.
pub proof fn law_run_keeps_state_reachable(scene: Scene, inputs: Seq<PointerInput>)
    requires
        scene.wf(),
        forall|i: int| 0 <= i < inputs.len() ==> (#[trigger] inputs[i]).wf(),
    ensures
        scene.after_all(inputs).wf(),
        scene.after_all(inputs).config == scene.config,
    decreases inputs.len(),
{
    if inputs.len() > 0 {
        let rest = inputs.drop_first();
        assert(inputs[0].wf());
        assert forall|i: int| 0 <= i < rest.len() implies (#[trigger] rest[i]).wf() by {
            assert(rest[i] == inputs[i + 1]);
        }
        law_run_keeps_state_reachable(scene.after(inputs.first()), rest);
    }
}

/// The occluder is never beyond an edge on two ticks in a row: where its
/// centre is beyond one, its next step brings it back between them. Its centre
/// stays within the coordinate range.
pub proof fn law_occluder_returns_between_edges(scene: Scene)
    requires
        scene.wf(),
    ensures
        Scene::beyond_edge(scene.config, scene.occluder_y as int) ==> !scene.bounces(),
        in_range(scene.occluder_y as int),
{
}

/// A drag starts only with a press on the light's disc, and ends only with a
/// release.
pub proof fn law_drag_starts_on_grab_ends_on_release(scene: Scene, input: PointerInput)
    ensures
        !scene.dragging && scene.after(input).dragging ==> scene.grabs(input),
        scene.dragging && !scene.after(input).dragging ==> input.released,
        input.released ==> !scene.after(input).dragging,
{
}

/// While the light is not dragged, a tick whose press, if any, misses the
/// light's disc leaves the light where it is and starts no drag.
pub proof fn law_missed_press_keeps_light(scene: Scene, input: PointerInput)
    requires
        !scene.dragging,
        !scene.grabs(input),
    ensures
        scene.after(input).light_x == scene.light_x,
        scene.after(input).light_y == scene.light_y,
        !scene.after(input).dragging,
{
}

/// While the light is not dragged, no run of ticks moves it unless one of
/// them brings a press on its disc: holding the button after a press that
/// missed never moves the light.
pub proof fn law_light_rests_without_grab(scene: Scene, inputs: Seq<PointerInput>)
    requires
        !scene.dragging,
        forall|i: int|
            0 <= i < inputs.len() ==> !(#[trigger] inputs[i]).presses_within(
                scene.light_x as int,
                scene.light_y as int,
                scene.config.light_radius as int,
            ),
    ensures
        scene.after_all(inputs).light_x == scene.light_x,
        scene.after_all(inputs).light_y == scene.light_y,
        !scene.after_all(inputs).dragging,
    decreases inputs.len(),
{
    if inputs.len() > 0 {
        let next = scene.after(inputs.first());
        let rest = inputs.drop_first();
        assert(!scene.grabs(inputs[0]));
        assert forall|i: int| 0 <= i < rest.len() implies !(#[trigger] rest[i]).presses_within(
            next.light_x as int,
            next.light_y as int,
            next.config.light_radius as int,
        ) by {
            assert(rest[i] == inputs[i + 1]);
        }
        law_light_rests_without_grab(next, rest);
    }
}

/// A press on the light's disc with the button held starts a drag and takes
/// the light to the pointer on that same tick.
pub proof fn law_grab_starts_drag(scene: Scene, input: PointerInput)
    requires
        scene.grabs(input),
        !input.released,
    ensures
        scene.after(input).dragging,
        input.held ==> (scene.after(input).light_x, scene.after(input).light_y)
            == input.cursor.unwrap(),
{
}

/// A dragged light goes to the pointer on every tick on which the button is
/// held, and the drag lasts until a release.
pub proof fn law_dragged_light_follows_pointer(scene: Scene, input: PointerInput, x: i64, y: i64)
    requires
        scene.dragging,
        input.held,
        input.cursor == Some((x, y)),
    ensures
        scene.after(input).light_x == x,
        scene.after(input).light_y == y,
        scene.after(input).dragging == !input.released,
{
}

/// From a dragged light to the release: through any run of ticks on which
/// the button is held over the frame and not released, the drag lasts, and
/// after the run the light is where the pointer was on its last tick.
pub proof fn law_dragged_light_follows_run(scene: Scene, inputs: Seq<PointerInput>)
    requires
        scene.dragging,
        inputs.len() > 0,
        forall|i: int|
            0 <= i < inputs.len() ==> {
                &&& (#[trigger] inputs[i]).held
                &&& inputs[i].cursor.is_some()
                &&& !inputs[i].released
            },
    ensures
        scene.after_all(inputs).dragging,
        (scene.after_all(inputs).light_x, scene.after_all(inputs).light_y)
            == inputs.last().cursor.unwrap(),
    decreases inputs.len(),
{
    let next = scene.after(inputs.first());
    let rest = inputs.drop_first();
    assert(inputs[0].held);
    if rest.len() > 0 {
        assert forall|i: int| 0 <= i < rest.len() implies {
            &&& (#[trigger] rest[i]).held
            &&& rest[i].cursor.is_some()
            &&& !rest[i].released
        } by {
            assert(rest[i] == inputs[i + 1]);
        }
        assert(rest.last() == inputs.last());
        law_dragged_light_follows_run(next, rest);
    } else {
        assert(next.after_all(rest) == next);
    }
}

/// A tick reverses the occluder's velocity when its step ends beyond an edge
/// and keeps it otherwise: the velocity changes sign at most once in a tick,
/// and the speed never changes.
pub proof fn law_velocity_reverses_on_bounce(scene: Scene, input: PointerInput)
    requires
        scene.wf(),
    ensures
        scene.bounces() ==> scene.after(input).occluder_velocity_y == -scene.occluder_velocity_y,
        !scene.bounces() ==> scene.after(input).occluder_velocity_y == scene.occluder_velocity_y,
        scene.after(input).occluder_y == scene.occluder_y + scene.occluder_velocity_y,
{
}

/// One crossing of an edge reverses the velocity once: the tick after a
/// bounce brings the occluder back to where it was, between the edges, and
/// does not reverse it again.
pub proof fn law_one_reversal_per_crossing(scene: Scene, first: PointerInput, second: PointerInput)
    requires
        scene.wf(),
        scene.bounces(),
    ensures
        !scene.after(first).bounces(),
        scene.after(first).after(second).occluder_velocity_y == -scene.occluder_velocity_y,
        scene.after(first).after(second).occluder_y == scene.occluder_y,
        !Scene::beyond_edge(scene.config, scene.occluder_y as int),
{
}

} // verus!
