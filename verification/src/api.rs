//! The key-authenticated REST surface's vocabulary and rendering: the
//! request kinds a client can send, the enumeration of lights and groups,
//! and the acknowledgement types, all as plain values the host serializes.

use vstd::prelude::*;

use crate::{App, Color, LightModel};

verus! {

/// A REST request: enumerate the registry, probe the shared secret, create
/// a group, or change a group's membership.
pub enum Request {
    Enumerate,
    CheckAuth,
    MakeGroup { lights: Vec<String>, id: String },
    AddLightToGroup { light: String, group: String },
    RemoveLightFromGroup { light: String, group: String },
}

/// What enumeration reports: every light with its visible state, and every
/// group with its members.
pub struct EnumerateResponse {
    pub lights: Vec<Light>,
    pub groups: Vec<Group>,
}

/// A group as enumeration reports it.
pub struct Group {
    pub name: String,
    pub lights: Vec<String>,
}

/// The externally visible state of a light: off, or on with its color.
#[derive(Clone, Copy, Debug, PartialEq, Eq, Structural)]
pub enum State {
    Off,
    Rgb { red: u8, green: u8, blue: u8 },
    White { temp: u32 },
}

/// A light as enumeration reports it.
pub struct Light {
    pub id: String,
    pub state: State,
}

/// The enumerate request.
pub struct Enumerate;

impl Enumerate {
    /// The wire request this stands for.
    pub fn into_request(self) -> (r: Request)
        ensures
            r is Enumerate,
    {
        Request::Enumerate
    }
}

/// A request to append a light to a group's member list.
pub struct AddLightToGroup {
    pub light: String,
    pub group: String,
}

/// The acknowledgement of [`AddLightToGroup`].
pub struct AddLightToGroupResponse;

impl AddLightToGroup {
    /// The wire request this stands for.
    pub fn into_request(self) -> (r: Request)
        ensures
            r == (Request::AddLightToGroup { light: self.light, group: self.group }),
    {
        Request::AddLightToGroup { light: self.light, group: self.group }
    }
}

/// A request to remove a light from a group's member list.
pub struct RemoveLightFromGroup {
    pub light: String,
    pub group: String,
}

/// The acknowledgement of [`RemoveLightFromGroup`].
pub struct RemoveLightFromGroupResponse;

impl RemoveLightFromGroup {
    /// The wire request this stands for.
    pub fn into_request(self) -> (r: Request)
        ensures
            r == (Request::RemoveLightFromGroup { light: self.light, group: self.group }),
    {
        Request::RemoveLightFromGroup { light: self.light, group: self.group }
    }
}

/// A request to create a group over the given lights.
pub struct MakeGroup {
    pub lights: Vec<String>,
    pub id: String,
}

/// The acknowledgement of [`MakeGroup`].
pub struct MakeGroupResponse;

impl MakeGroup {
    /// The wire request this stands for.
    pub fn into_request(self) -> (r: Request)
        ensures
            r == (Request::MakeGroup { lights: self.lights, id: self.id }),
    {
        Request::MakeGroup { lights: self.lights, id: self.id }
    }
}

/// The acknowledgement of [`CheckAuth`].
pub struct CheckAuthResponse;

/// A request that does nothing but prove the shared secret was accepted.
pub struct CheckAuth;

impl CheckAuth {
    /// The wire request this stands for.
    pub fn into_request(self) -> (r: Request)
        ensures
            r is CheckAuth,
    {
        Request::CheckAuth
    }
}

/// The state a light shows to the REST surface: `Off` while switched off,
/// else its cached color.
pub open spec fn spec_state(m: LightModel) -> State {
    if !m.on {
        State::Off
    } else {
        match m.color {
            Color::Rgb { r, g, b } => State::Rgb { red: r, green: g, blue: b },
            Color::White { temperature } => State::White { temp: temperature },
        }
    }
}

/// What an enumeration row owes for one registered light.
pub open spec fn light_row_ok(l: Light, m: LightModel) -> bool {
    &&& l.id@ == m.id
    &&& l.state == spec_state(m)
}

/// The registered groups, in enumeration order.
pub open spec fn groups_of(lights: Seq<LightModel>) -> Seq<LightModel> {
    lights.filter(|m: LightModel| m.members is Some)
}

/// What an enumeration row owes for one registered group.
pub open spec fn group_row_ok(g: Group, m: LightModel) -> bool {
    &&& g.name@ == m.name
    &&& m.members == Some(g.lights.deep_view())
}

/// Renders the whole registry for the REST surface: every entry as a light
/// with its visible state, and every group entry with its member list, both
/// in enumeration order.
pub fn enumerate_response(app: &App) -> (r: EnumerateResponse)
    ensures
        r.lights@.len() == app@.lights.len(),
        forall|j: int| 0 <= j < r.lights@.len() ==> light_row_ok(#[trigger] r.lights@[j], app@.lights[j]),
        r.groups@.len() == groups_of(app@.lights).len(),
        forall|j: int|
            0 <= j < r.groups@.len() ==> group_row_ok(#[trigger] r.groups@[j], groups_of(app@.lights)[j]),
{
    let ghost pred = |m: LightModel| m.members is Some;
    let mut lights: Vec<Light> = Vec::new();
    let mut groups: Vec<Group> = Vec::new();
    let mut k: usize = 0;
    while k < app.lights.len()
        invariant
            k <= app.lights.len(),
            lights@.len() == k,
            forall|j: int| 0 <= j < k ==> light_row_ok(#[trigger] lights@[j], app@.lights[j]),
            groups@.len() == app@.lights.take(k as int).filter(pred).len(),
            forall|j: int|
                0 <= j < groups@.len() ==> group_row_ok(
                    #[trigger] groups@[j],
                    app@.lights.take(k as int).filter(pred)[j],
                ),
            pred == (|m: LightModel| m.members is Some),
        decreases app.lights.len() - k,
    {
        let lw = &app.lights[k];
        let state = if lw.is_on() {
            match lw.rgb_color() {
                Color::White { temperature } => State::White { temp: temperature },
                Color::Rgb { r, g, b } => State::Rgb { red: r, green: g, blue: b },
            }
        } else {
            State::Off
        };
        lights.push(Light { id: lw.id(), state });
        proof {
            crate::fulfill::lemma_filter_take_step(app@.lights, pred, k as int);
        }
        match lw.group_members() {
            Some(members) => {
                let row = Group { name: lw.name().clone(), lights: crate::clone_ids(members) };
                proof {
                    assert(group_row_ok(row, app@.lights[k as int]));
                }
                groups.push(row);
            },
            None => {},
        }
        k += 1;
    }
    proof {
        assert(app@.lights.take(app.lights.len() as int) =~= app@.lights);
    }
    EnumerateResponse { lights, groups }
}

} // verus!
