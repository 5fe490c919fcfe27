//! A home-automation hub core: a registry of networked lights with cached
//! state, group composites that fan commands out to their members, and a
//! translator between the registry and the smart-home SYNC/QUERY/EXECUTE
//! intent protocol.
//!
//! Backends (the vendor protocol clients) perform network I/O and therefore
//! live outside this library. The registry records every command in its
//! cache first and then emits an [`Action`] describing the backend work the
//! host must perform; the host hands outcomes back as plain values.

use vstd::prelude::*;

pub mod api;
pub mod auth;
pub mod fulfill;
pub mod hook;
pub mod util;

pub use fulfill::{fulfill, FulfillmentRequest, FulfillmentResponse};
pub use hook::HookData;
pub use util::format_list;

verus! {

use vstd::pervasive::VecAdditionalExecFns;
use vstd::string::StringExecFns;

/// On/off state of a light, kept as an explicit two-value enumeration so it
/// cannot be confused with a color that happens to render as dark.
#[derive(Clone, Copy, Debug, PartialEq, Eq, Structural)]
pub enum PowerState {
    On,
    Off,
}

impl From<bool> for PowerState {
    fn from(data: bool) -> (r: Self) {
        if data {
            PowerState::On
        } else {
            PowerState::Off
        }
    }
}

impl vstd::std_specs::convert::FromSpecImpl<bool> for PowerState {
    open spec fn obeys_from_spec() -> bool {
        true
    }

    open spec fn from_spec(data: bool) -> Self {
        if data {
            PowerState::On
        } else {
            PowerState::Off
        }
    }
}

/// The color of a light: either an RGB triple or a white color temperature
/// in Kelvin. Exactly one variant is active at a time.
#[derive(Clone, Copy, Debug, PartialEq, Eq, Structural)]
pub enum Color {
    Rgb { r: u8, g: u8, b: u8 },
    White { temperature: u32 },
}

/// The 24-bit packed RGB integer that the external QUERY/EXECUTE protocol
/// uses for an RGB color. State reporting packs only genuinely RGB caches
/// (a white cache surfaces as its Kelvin temperature instead); where a
/// spectrum integer is nevertheless demanded of a white color, it renders
/// as full-intensity white.
pub open spec fn spec_spectrum(c: Color) -> int {
    match c {
        Color::Rgb { r, g, b } => r * 0x10000 + g * 0x100 + b,
        Color::White { .. } => 0xFFFFFF,
    }
}

impl Color {
    /// Packs an RGB color into the external 24-bit spectrum integer; see
    /// [`spec_spectrum`] for what a white color yields.
    pub fn to_spectrum(&self) -> (r: u32)
        ensures
            r == spec_spectrum(*self),
    {
        match self {
            Color::Rgb { r, g, b } => (*r as u32) * 0x10000 + (*g as u32) * 0x100 + (*b as u32),
            Color::White { .. } => 0xFFFFFF,
        }
    }
}

/// The default color a light entry is admitted with: daylight white.
pub open spec fn default_color() -> Color {
    Color::White { temperature: 6500 }
}

/// The cached color cell of a light entry. Both variants' fields are kept so
/// that storing one variant does not disturb the inactive fields; only the
/// variant selected by `white` is ever observable through `load`.
pub struct AtomicColor {
    pub red: u8,
    pub green: u8,
    pub blue: u8,
    pub white: bool,
    pub temperature: u32,
}

impl View for AtomicColor {
    type V = Color;

    open spec fn view(&self) -> Color {
        if self.white {
            Color::White { temperature: self.temperature }
        } else {
            Color::Rgb { r: self.red, g: self.green, b: self.blue }
        }
    }
}

impl AtomicColor {
    /// A fresh cell holding the default daylight white.
    pub fn new() -> (r: Self)
        ensures
            r@ == default_color(),
    {
        AtomicColor { white: true, red: 255, green: 255, blue: 255, temperature: 6500 }
    }

    /// Overwrites the cell with `color`.
    pub fn store(&mut self, color: Color)
        ensures
            final(self)@ == color,
    {
        match color {
            Color::White { temperature } => {
                self.temperature = temperature;
                self.white = true;
            },
            Color::Rgb { r, g, b } => {
                self.white = false;
                self.red = r;
                self.green = g;
                self.blue = b;
            },
        }
    }

    /// Reads the color last stored (or the default, if none was).
    pub fn load(&self) -> (r: Color)
        ensures
            r == self@,
    {
        if self.white {
            Color::White { temperature: self.temperature }
        } else {
            Color::Rgb { r: self.red, g: self.green, b: self.blue }
        }
    }
}

/// A vendor-neutral command that a light entry can be asked to perform.
#[derive(Clone, Copy, Debug, PartialEq, Eq, Structural)]
pub enum LightCommand {
    Power(PowerState),
    Brightness(u8),
    SetColor(Color),
}

/// How an entry's capability is realized: a physical device whose backend
/// the host owns, or a group that fans commands out to its members.
pub enum Backend {
    Device,
    Group { members: Vec<String> },
}

/// The member identifiers a backend fans out to: `None` for a device,
/// `Some` of the list for a group.
pub open spec fn spec_members(b: Backend) -> Option<Seq<Seq<char>>> {
    match b {
        Backend::Device => None,
        Backend::Group { members } => Some(members.deep_view()),
    }
}

/// A registry record: one light's identity plus the cached snapshot of its
/// last commanded state.
pub struct LightWrapper {
    pub id: String,
    pub name: String,
    pub is_on: bool,
    pub brightness: u8,
    pub color: AtomicColor,
    pub backend: Backend,
}

/// The mathematical image of a [`LightWrapper`].
pub ghost struct LightModel {
    pub id: Seq<char>,
    pub name: Seq<char>,
    pub on: bool,
    pub brightness: u8,
    pub color: Color,
    /// `None` for a device; `Some` of the member identifiers for a group.
    pub members: Option<Seq<Seq<char>>>,
}

impl View for LightWrapper {
    type V = LightModel;

    open spec fn view(&self) -> LightModel {
        LightModel {
            id: self.id@,
            name: self.name@,
            on: self.is_on,
            brightness: self.brightness,
            color: self.color@,
            members: spec_members(self.backend),
        }
    }
}

impl DeepView for LightWrapper {
    type V = LightModel;

    open spec fn deep_view(&self) -> LightModel {
        self.view()
    }
}

/// The fresh model a light entry is admitted with.
pub open spec fn fresh_light(id: Seq<char>, name: Seq<char>, members: Option<Seq<Seq<char>>>) -> LightModel {
    LightModel { id, name, on: false, brightness: 0, color: default_color(), members }
}

impl LightWrapper {
    /// The display name of the light.
    pub fn name(&self) -> (r: &String)
        ensures
            r@ == self@.name,
    {
        &self.name
    }

    /// The cached brightness, an internal 0..=255 value.
    pub fn brightness(&self) -> (r: u8)
        ensures
            r == self@.brightness,
    {
        self.brightness
    }

    /// The durable unique identifier of the light.
    pub fn id(&self) -> (r: String)
        ensures
            r@ == self@.id,
    {
        self.id.clone()
    }

    /// The cached on/off flag.
    pub fn is_on(&self) -> (r: bool)
        ensures
            r == self@.on,
    {
        self.is_on
    }

    /// The cached color packed as the external spectrum integer; state
    /// reporting uses this only when the cache is genuinely RGB.
    pub fn color(&self) -> (r: u32)
        ensures
            r == spec_spectrum(self@.color),
    {
        self.color.load().to_spectrum()
    }

    /// The cached color.
    pub fn rgb_color(&self) -> (r: Color)
        ensures
            r == self@.color,
    {
        self.color.load()
    }

    /// The member identifiers, if this entry is a group.
    pub fn group_members(&self) -> (r: Option<&Vec<String>>)
        ensures
            match r {
                Some(v) => self@.members == Some(v.deep_view()),
                None => self@.members is None,
            },
    {
        match &self.backend {
            Backend::Device => None,
            Backend::Group { members } => Some(members),
        }
    }
}

/// The backend work the host owes the registry: invoke a device's vendor
/// backend, re-enter the registry once per member of a group, or notify the
/// external sync service that the device list changed.
pub enum Action {
    /// Invoke the vendor backend of the device `id` with `command`.
    Call { id: String, command: LightCommand },
    /// Re-issue `command` through the registry for each member in order,
    /// stopping at the first failure.
    FanOut { members: Vec<String>, command: LightCommand },
    /// Fire-and-forget notification that the device list changed.
    RequestSync,
}

/// The mathematical image of an [`Action`].
pub ghost enum ActionModel {
    Call { id: Seq<char>, command: LightCommand },
    FanOut { members: Seq<Seq<char>>, command: LightCommand },
    RequestSync,
}

impl View for Action {
    type V = ActionModel;

    open spec fn view(&self) -> ActionModel {
        match self {
            Action::Call { id, command } => ActionModel::Call { id: id@, command: *command },
            Action::FanOut { members, command } => ActionModel::FanOut {
                members: members.deep_view(),
                command: *command,
            },
            Action::RequestSync => ActionModel::RequestSync,
        }
    }
}

impl DeepView for Action {
    type V = ActionModel;

    open spec fn deep_view(&self) -> ActionModel {
        self.view()
    }
}

/// What the registry's operations can fail with.
#[derive(Debug)]
pub enum Error {
    /// The underlying device capability call reported an error.
    Light(String),
    /// A light identifier that is not registered was addressed.
    Absent,
}

impl Error {
    /// A human-readable rendering of the error.
    pub fn describe(&self) -> (r: String)
        ensures
            match self {
                Error::Light(msg) => r@ == "light error: "@ + msg@,
                Error::Absent => r@ == "nonexistent light accessed"@,
            },
    {
        match self {
            Error::Light(msg) => {
                let mut s = "light error: ".to_owned();
                s.append(msg.as_str());
                s
            },
            Error::Absent => "nonexistent light accessed".to_owned(),
        }
    }
}

/// The mathematical image of the registry: the entries in enumeration order
/// and the backend work not yet handed to the host.
pub ghost struct AppModel {
    pub lights: Seq<LightModel>,
    pub pending: Seq<ActionModel>,
}

/// The first index holding `id`, scanning from the front.
pub open spec fn find_light(lights: Seq<LightModel>, id: Seq<char>) -> Option<int>
    decreases lights.len(),
{
    if lights.len() == 0 {
        None
    } else if lights[0].id == id {
        Some(0int)
    } else {
        match find_light(lights.drop_first(), id) {
            Some(i) => Some(i + 1),
            None => None,
        }
    }
}

/// `find_light` returns the first matching index, or `None` exactly when no
/// entry carries the identifier.
pub proof fn lemma_find_light(lights: Seq<LightModel>, id: Seq<char>)
    ensures
        match find_light(lights, id) {
            Some(i) => 0 <= i < lights.len() && lights[i].id == id && (forall|j: int|
                0 <= j < i ==> lights[j].id != id),
            None => forall|j: int| 0 <= j < lights.len() ==> lights[j].id != id,
        },
    decreases lights.len(),
{
    if lights.len() > 0 && lights[0].id != id {
        lemma_find_light(lights.drop_first(), id);
        assert(forall|j: int| 1 <= j < lights.len() ==> lights[j] == lights.drop_first()[j - 1]);
    }
}

/// Replacing an entry with one carrying the same identifier moves no entry,
/// so every lookup lands where it did before.
pub proof fn lemma_find_light_update(lights: Seq<LightModel>, id: Seq<char>, i: int, e: LightModel)
    requires
        0 <= i < lights.len(),
        e.id == lights[i].id,
    ensures
        find_light(lights.update(i, e), id) == find_light(lights, id),
    decreases lights.len(),
{
    let updated = lights.update(i, e);
    assert(updated[0] == if i == 0 { e } else { lights[0] });
    if lights.len() > 0 && lights[0].id != id {
        if i == 0 {
            assert(updated.drop_first() =~= lights.drop_first());
        } else {
            assert(updated.drop_first() =~= lights.drop_first().update(i - 1, e));
            lemma_find_light_update(lights.drop_first(), id, i - 1, e);
        }
    }
}

/// The entry as it stands after obeying `cmd`: exactly one cache field is
/// replaced; identity, name and membership are untouched.
pub open spec fn apply_cmd(e: LightModel, cmd: LightCommand) -> LightModel {
    match cmd {
        LightCommand::Power(s) => LightModel {
            id: e.id,
            name: e.name,
            on: s == PowerState::On,
            brightness: e.brightness,
            color: e.color,
            members: e.members,
        },
        LightCommand::Brightness(b) => LightModel {
            id: e.id,
            name: e.name,
            on: e.on,
            brightness: b,
            color: e.color,
            members: e.members,
        },
        LightCommand::SetColor(c) => LightModel {
            id: e.id,
            name: e.name,
            on: e.on,
            brightness: e.brightness,
            color: c,
            members: e.members,
        },
    }
}

/// The backend work that commanding `e` obliges the host to perform.
pub open spec fn dispatch_action(e: LightModel, cmd: LightCommand) -> ActionModel {
    match e.members {
        None => ActionModel::Call { id: e.id, command: cmd },
        Some(ms) => ActionModel::FanOut { members: ms, command: cmd },
    }
}

/// The registry after dispatching `cmd` to `id`: if the identifier is
/// registered, its cache is updated first and the backend call is owed;
/// an unknown identifier changes nothing.
pub open spec fn spec_apply(m: AppModel, id: Seq<char>, cmd: LightCommand) -> AppModel {
    match find_light(m.lights, id) {
        None => m,
        Some(i) => AppModel {
            lights: m.lights.update(i, apply_cmd(m.lights[i], cmd)),
            pending: m.pending.push(dispatch_action(m.lights[i], cmd)),
        },
    }
}

/// The entry list after admitting a light under `id`: a fresh entry with
/// the default cache replaces any entry already holding the identifier, or
/// is appended.
pub open spec fn spec_insert_lights(lights: Seq<LightModel>, id: Seq<char>, name: Seq<char>, members: Option<Seq<Seq<char>>>) -> Seq<LightModel> {
    match find_light(lights, id) {
        Some(i) => lights.update(i, fresh_light(id, name, members)),
        None => lights.push(fresh_light(id, name, members)),
    }
}

/// No two entries share an identifier.
pub open spec fn ids_unique(lights: Seq<LightModel>) -> bool {
    forall|i: int, j: int| 0 <= i < j < lights.len() ==> lights[i].id != lights[j].id
}

/// The registry: the single owner of all light entries, looked up by their
/// unique identifier, in a stable enumeration order.
pub struct App {
    pub lights: Vec<LightWrapper>,
    pub pending: Vec<Action>,
}

impl View for App {
    type V = AppModel;

    open spec fn view(&self) -> AppModel {
        AppModel { lights: self.lights.deep_view(), pending: self.pending.deep_view() }
    }
}

impl App {
    /// The registry's invariant: identifiers are unique.
    pub open spec fn wf(&self) -> bool {
        ids_unique(self@.lights)
    }

    /// An empty registry.
    pub fn new() -> (r: App)
        ensures
            r.wf(),
            r@.lights == Seq::<LightModel>::empty(),
            r@.pending == Seq::<ActionModel>::empty(),
    {
        let r = App { lights: Vec::new(), pending: Vec::new() };
        proof {
            assert(r@.lights =~= Seq::<LightModel>::empty());
            assert(r@.pending =~= Seq::<ActionModel>::empty());
        }
        r
    }

    /// The entries, in enumeration order.
    pub fn lights(&self) -> (r: &Vec<LightWrapper>)
        ensures
            r.deep_view() == self@.lights,
    {
        &self.lights
    }

    /// The first position holding `id`, if any.
    fn find(&self, id: &String) -> (r: Option<usize>)
        ensures
            match r {
                Some(i) => find_light(self@.lights, id@) == Some(i as int),
                None => find_light(self@.lights, id@) is None,
            },
    {
        let mut k: usize = 0;
        while k < self.lights.len()
            invariant
                k <= self.lights.len(),
                forall|j: int| 0 <= j < k ==> self@.lights[j].id != id@,
            decreases self.lights.len() - k,
        {
            if self.lights[k].id == *id {
                proof {
                    lemma_find_light(self@.lights, id@);
                    assert(self@.lights[k as int].id == id@);
                    if let Some(i) = find_light(self@.lights, id@) {
                        assert(i <= k as int);
                        assert(i >= k as int);
                    }
                }
                return Some(k);
            }
            k += 1;
        }
        proof {
            lemma_find_light(self@.lights, id@);
        }
        None
    }

    /// Dispatches `cmd` to the entry holding `id`: the cache is updated
    /// first, then the backend work is recorded for the host; an unknown
    /// identifier leaves the registry untouched.
    fn apply(&mut self, id: &String, cmd: LightCommand) -> (r: Result<(), Error>)
        requires
            old(self).wf(),
        ensures
            final(self).wf(),
            final(self)@ == spec_apply(old(self)@, id@, cmd),
            r == (match find_light(old(self)@.lights, id@) {
                Some(i) => Ok::<(), Error>(()),
                None => Err::<(), Error>(Error::Absent),
            }),
    {
        let ghost m0 = self@;
        match self.find(id) {
            None => Err(Error::Absent),
            Some(i) => {
                proof {
                    lemma_find_light(m0.lights, id@);
                }
                let entry = &mut self.lights[i];
                match cmd {
                    LightCommand::Power(s) => {
                        entry.is_on = match s {
                            PowerState::On => true,
                            PowerState::Off => false,
                        };
                    },
                    LightCommand::Brightness(b) => {
                        entry.brightness = b;
                    },
                    LightCommand::SetColor(c) => {
                        entry.color.store(c);
                    },
                }
                let action = match &entry.backend {
                    Backend::Device => Action::Call { id: entry.id.clone(), command: cmd },
                    Backend::Group { members } => Action::FanOut {
                        members: clone_ids(members),
                        command: cmd,
                    },
                };
                proof {
                    assert(self@.lights =~= m0.lights.update(
                        i as int,
                        apply_cmd(m0.lights[i as int], cmd),
                    ));
                    assert(action@ == dispatch_action(m0.lights[i as int], cmd));
                }
                self.pending.push(action);
                proof {
                    assert(self@.pending =~= m0.pending.push(
                        dispatch_action(m0.lights[i as int], cmd),
                    ));
                    assert forall|x: int, y: int|
                        0 <= x < y < self@.lights.len() implies self@.lights[x].id
                        != self@.lights[y].id by {
                        assert(self@.lights[x].id == m0.lights[x].id);
                        assert(self@.lights[y].id == m0.lights[y].id);
                    }
                }
                Ok(())
            },
        }
    }

    /// Records the new power state in the cache and obliges the host to
    /// invoke the backend.
    pub fn set_state(&mut self, id: &String, state: PowerState) -> (r: Result<(), Error>)
        requires
            old(self).wf(),
        ensures
            final(self).wf(),
            final(self)@ == spec_apply(old(self)@, id@, LightCommand::Power(state)),
            r == (match find_light(old(self)@.lights, id@) {
                Some(i) => Ok::<(), Error>(()),
                None => Err::<(), Error>(Error::Absent),
            }),
    {
        self.apply(id, LightCommand::Power(state))
    }

    /// Records the new brightness (an internal 0..=255 value) in the cache
    /// and obliges the host to invoke the backend.
    pub fn set_brightness(&mut self, id: &String, brightness: u8) -> (r: Result<(), Error>)
        requires
            old(self).wf(),
        ensures
            final(self).wf(),
            final(self)@ == spec_apply(old(self)@, id@, LightCommand::Brightness(brightness)),
            r == (match find_light(old(self)@.lights, id@) {
                Some(i) => Ok::<(), Error>(()),
                None => Err::<(), Error>(Error::Absent),
            }),
    {
        self.apply(id, LightCommand::Brightness(brightness))
    }

    /// Records the new color in the cache and obliges the host to invoke the
    /// backend.
    pub fn set_color(&mut self, id: &String, color: Color) -> (r: Result<(), Error>)
        requires
            old(self).wf(),
        ensures
            final(self).wf(),
            final(self)@ == spec_apply(old(self)@, id@, LightCommand::SetColor(color)),
            r == (match find_light(old(self)@.lights, id@) {
                Some(i) => Ok::<(), Error>(()),
                None => Err::<(), Error>(Error::Absent),
            }),
    {
        self.apply(id, LightCommand::SetColor(color))
    }

    /// Inserts a fresh entry for `id`, replacing any entry already holding
    /// the identifier, as admission after a successful identification does.
    fn insert_entry(&mut self, id: String, name: String, backend: Backend)
        requires
            old(self).wf(),
        ensures
            final(self).wf(),
            final(self)@.lights == spec_insert_lights(
                old(self)@.lights,
                id@,
                name@,
                spec_members(backend),
            ),
            final(self)@.pending == old(self)@.pending,
    {
        let ghost m0 = self@;
        let ghost ms = spec_members(backend);
        let entry = LightWrapper {
            id: id.clone(),
            name,
            is_on: false,
            brightness: 0,
            color: AtomicColor::new(),
            backend,
        };
        proof {
            assert(entry@ == fresh_light(id@, name@, ms));
        }
        match self.find(&id) {
            Some(i) => {
                proof {
                    lemma_find_light(m0.lights, id@);
                }
                self.lights.set(i, entry);
                proof {
                    assert(self@.lights =~= m0.lights.update(i as int, fresh_light(id@, name@, ms)));
                    assert forall|x: int, y: int|
                        0 <= x < y < self@.lights.len() implies self@.lights[x].id
                        != self@.lights[y].id by {
                        if x != i as int {
                            assert(self@.lights[x].id == m0.lights[x].id);
                        }
                        if y != i as int {
                            assert(self@.lights[y].id == m0.lights[y].id);
                        }
                        assert(m0.lights[i as int].id == id@);
                    }
                    assert(self@.pending =~= m0.pending);
                }
            },
            None => {
                self.lights.push(entry);
                proof {
                    assert(self@.lights =~= m0.lights.push(fresh_light(id@, name@, ms)));
                    lemma_find_light(m0.lights, id@);
                    assert forall|x: int, y: int|
                        0 <= x < y < self@.lights.len() implies self@.lights[x].id
                        != self@.lights[y].id by {
                        if y < m0.lights.len() {
                            assert(self@.lights[x].id == m0.lights[x].id);
                            assert(self@.lights[y].id == m0.lights[y].id);
                        } else {
                            assert(self@.lights[x].id == m0.lights[x].id);
                            assert(m0.lights[x].id != id@);
                        }
                    }
                    assert(self@.pending =~= m0.pending);
                }
            },
        }
    }

    /// Admits one light whose durable identifier the host has already
    /// obtained from the device, then owes one change notification.
    pub fn push_light(&mut self, id: String, name: String)
        requires
            old(self).wf(),
        ensures
            final(self).wf(),
            final(self)@.lights == spec_insert_lights(old(self)@.lights, id@, name@, None),
            final(self)@.pending == old(self)@.pending.push(ActionModel::RequestSync),
    {
        self.insert_entry(id, name, Backend::Device);
        self.pending.push(Action::RequestSync);
        proof {
            assert(self@.pending =~= old(self)@.pending.push(ActionModel::RequestSync));
        }
    }

    /// Admits several identified lights, then owes a single change
    /// notification, as a bulk discovery pass does.
    pub fn push_lights(&mut self, lights: Vec<(String, String)>)
        requires
            old(self).wf(),
        ensures
            final(self).wf(),
            final(self)@.lights == spec_insert_all(old(self)@.lights, lights.deep_view()),
            final(self)@.pending == old(self)@.pending.push(ActionModel::RequestSync),
    {
        let ghost m0 = self@;
        let ghost items = lights.deep_view();
        let mut k: usize = 0;
        while k < lights.len()
            invariant
                k <= lights.len(),
                items == lights.deep_view(),
                self.wf(),
                self@.lights == spec_insert_all(m0.lights, items.take(k as int)),
                self@.pending == m0.pending,
            decreases lights.len() - k,
        {
            let id = lights[k].0.clone();
            let name = lights[k].1.clone();
            self.insert_entry(id, name, Backend::Device);
            proof {
                assert(items.take(k + 1 as int).drop_last() =~= items.take(k as int));
                lemma_insert_all_step(m0.lights, items.take(k + 1 as int));
            }
            k += 1;
        }
        proof {
            assert(items.take(lights.len() as int) =~= items);
        }
        self.pending.push(Action::RequestSync);
        proof {
            assert(self@.pending =~= m0.pending.push(ActionModel::RequestSync));
        }
    }

    /// Registers a group: a virtual light admitted under the identifier and
    /// display name `Group <id>`, whose capability fans commands out to
    /// `lights`; then owes one change notification.
    pub fn make_group(&mut self, id: &String, lights: Vec<String>)
        requires
            old(self).wf(),
        ensures
            final(self).wf(),
            final(self)@.lights == spec_insert_lights(
                old(self)@.lights,
                group_key(id@),
                group_key(id@),
                Some(lights.deep_view()),
            ),
            final(self)@.pending == old(self)@.pending.push(ActionModel::RequestSync),
    {
        let mut gid = "Group ".to_owned();
        gid.append(id.as_str());
        let gname = gid.clone();
        self.insert_entry(gid, gname, Backend::Group { members: lights });
        self.pending.push(Action::RequestSync);
        proof {
            assert(self@.pending =~= old(self)@.pending.push(ActionModel::RequestSync));
        }
    }

    /// Appends `light` to the member list of the group registered under
    /// `Group <group>`; `Absent` if nothing is registered there or the entry
    /// is not a group.
    pub fn add_light_to_group(&mut self, light: String, group: &String) -> (r: Result<(), Error>)
        requires
            old(self).wf(),
        ensures
            final(self).wf(),
            final(self)@.pending == old(self)@.pending,
            (match find_light(old(self)@.lights, group_key(group@)) {
                Some(i) => match old(self)@.lights[i].members {
                    Some(ms) => r == Ok::<(), Error>(()) && final(self)@.lights
                        == old(self)@.lights.update(
                        i,
                        with_members(old(self)@.lights[i], ms.push(light@)),
                    ),
                    None => r == Err::<(), Error>(Error::Absent) && final(self)@.lights == old(
                        self,
                    )@.lights,
                },
                None => r == Err::<(), Error>(Error::Absent) && final(self)@.lights == old(
                    self,
                )@.lights,
            }),
    {
        let ghost m0 = self@;
        let mut gk = "Group ".to_owned();
        gk.append(group.as_str());
        match self.find(&gk) {
            None => Err(Error::Absent),
            Some(i) => {
                proof {
                    lemma_find_light(m0.lights, group_key(group@));
                }
                let entry = &mut self.lights[i];
                match &mut entry.backend {
                    Backend::Device => {
                        proof {
                            assert(self@.lights =~= m0.lights);
                        }
                        Err(Error::Absent)
                    },
                    Backend::Group { members } => {
                        members.push(light);
                        proof {
                            let e1 = with_members(
                                m0.lights[i as int],
                                m0.lights[i as int].members.unwrap().push(light@),
                            );
                            assert(members.deep_view() =~= m0.lights[i as int].members.unwrap()
                                .push(light@));
                            assert(self@.lights =~= m0.lights.update(i as int, e1));
                            assert forall|x: int, y: int|
                                0 <= x < y < self@.lights.len() implies self@.lights[x].id
                                != self@.lights[y].id by {
                                assert(self@.lights[x].id == m0.lights[x].id);
                                assert(self@.lights[y].id == m0.lights[y].id);
                            }
                            assert(self@.pending =~= m0.pending);
                        }
                        Ok(())
                    },
                }
            },
        }
    }

    /// Removes the first occurrence of `light` from the member list of the
    /// group registered under `Group <group>`; `Absent` if no such group is
    /// registered or the light is not a member.
    pub fn remove_light_from_group(&mut self, light: &String, group: &String) -> (r: Result<
        (),
        Error,
    >)
        requires
            old(self).wf(),
        ensures
            final(self).wf(),
            final(self)@.pending == old(self)@.pending,
            (match find_light(old(self)@.lights, group_key(group@)) {
                Some(i) => match old(self)@.lights[i].members {
                    Some(ms) => match find_str(ms, light@) {
                        Some(p) => r == Ok::<(), Error>(()) && final(self)@.lights == old(
                            self,
                        )@.lights.update(i, with_members(old(self)@.lights[i], ms.remove(p))),
                        None => r == Err::<(), Error>(Error::Absent) && final(self)@.lights == old(
                            self,
                        )@.lights,
                    },
                    None => r == Err::<(), Error>(Error::Absent) && final(self)@.lights == old(
                        self,
                    )@.lights,
                },
                None => r == Err::<(), Error>(Error::Absent) && final(self)@.lights == old(
                    self,
                )@.lights,
            }),
    {
        let ghost m0 = self@;
        let mut gk = "Group ".to_owned();
        gk.append(group.as_str());
        match self.find(&gk) {
            None => Err(Error::Absent),
            Some(i) => {
                proof {
                    lemma_find_light(m0.lights, group_key(group@));
                }
                let entry = &mut self.lights[i];
                match &mut entry.backend {
                    Backend::Device => {
                        proof {
                            assert(self@.lights =~= m0.lights);
                        }
                        Err(Error::Absent)
                    },
                    Backend::Group { members } => {
                        let ghost ms = m0.lights[i as int].members.unwrap();
                        proof {
                            assert(members.deep_view() == ms);
                        }
                        let p = match find_id_pos(members, light) {
                            Some(p) => p,
                            None => {
                                proof {
                                    assert(self@.lights =~= m0.lights);
                                }
                                return Err(Error::Absent);
                            },
                        };
                        proof {
                            lemma_find_str(ms, light@);
                        }
                        members.remove(p);
                        proof {
                            let e1 = with_members(m0.lights[i as int], ms.remove(p as int));
                            assert(members.deep_view() =~= ms.remove(p as int));
                            assert(self@.lights =~= m0.lights.update(i as int, e1));
                            assert forall|x: int, y: int|
                                0 <= x < y < self@.lights.len() implies self@.lights[x].id
                                != self@.lights[y].id by {
                                assert(self@.lights[x].id == m0.lights[x].id);
                                assert(self@.lights[y].id == m0.lights[y].id);
                            }
                            assert(self@.pending =~= m0.pending);
                        }
                        Ok(())
                    },
                }
            },
        }
    }

    /// Hands the host every backend action owed so far, oldest first, and
    /// clears the queue; the entries are untouched.
    pub fn take_actions(&mut self) -> (r: Vec<Action>)
        ensures
            final(self)@.lights == old(self)@.lights,
            final(self)@.pending == Seq::<ActionModel>::empty(),
            r.deep_view() == old(self)@.pending,
            old(self).wf() ==> final(self).wf(),
    {
        let mut out: Vec<Action> = Vec::new();
        core::mem::swap(&mut out, &mut self.pending);
        proof {
            assert(self@.pending =~= Seq::<ActionModel>::empty());
        }
        out
    }
}

/// The model with the member list replaced; everything else, the cached
/// state included, stands.
pub open spec fn with_members(e: LightModel, ms: Seq<Seq<char>>) -> LightModel {
    LightModel {
        id: e.id,
        name: e.name,
        on: e.on,
        brightness: e.brightness,
        color: e.color,
        members: Some(ms),
    }
}

/// The registered identifier and display name of the group created under
/// `id`.
pub open spec fn group_key(id: Seq<char>) -> Seq<char> {
    "Group "@ + id
}

/// The entry list after admitting each `(identifier, name)` pair in order.
pub open spec fn spec_insert_all(
    lights: Seq<LightModel>,
    items: Seq<(Seq<char>, Seq<char>)>,
) -> Seq<LightModel>
    decreases items.len(),
{
    if items.len() == 0 {
        lights
    } else {
        spec_insert_all(
            spec_insert_lights(lights, items[0].0, items[0].1, None),
            items.drop_first(),
        )
    }
}

/// Admitting the pairs and then one more is admitting the last into the
/// registry left by the others.
pub proof fn lemma_insert_all_step(lights: Seq<LightModel>, items: Seq<(Seq<char>, Seq<char>)>)
    requires
        items.len() > 0,
    ensures
        spec_insert_all(lights, items) == spec_insert_lights(
            spec_insert_all(lights, items.drop_last()),
            items.last().0,
            items.last().1,
            None,
        ),
    decreases items.len(),
{
    let inner = spec_insert_lights(lights, items[0].0, items[0].1, None);
    assert(spec_insert_all(lights, items) == spec_insert_all(inner, items.drop_first()));
    if items.len() == 1 {
        assert(items.drop_last() =~= Seq::<(Seq<char>, Seq<char>)>::empty());
        assert(items.drop_first() =~= Seq::<(Seq<char>, Seq<char>)>::empty());
        assert(items.last() == items[0]);
        assert(spec_insert_all(inner, items.drop_first()) == inner);
        assert(spec_insert_all(lights, items.drop_last()) == lights);
    } else {
        lemma_insert_all_step(inner, items.drop_first());
        assert(items.drop_first().drop_last() =~= items.drop_last().drop_first());
        assert(items.drop_first().last() == items.last());
        assert(items.drop_last()[0] == items[0]);
        assert(items.drop_last().len() > 0);
        assert(spec_insert_all(lights, items.drop_last()) == spec_insert_all(
            inner,
            items.drop_last().drop_first(),
        ));
        assert(spec_insert_all(inner, items.drop_first()) == spec_insert_lights(
            spec_insert_all(inner, items.drop_first().drop_last()),
            items.last().0,
            items.last().1,
            None,
        ));
    }
}

/// The first index holding `s`, scanning from the front.
pub open spec fn find_str(ss: Seq<Seq<char>>, s: Seq<char>) -> Option<int>
    decreases ss.len(),
{
    if ss.len() == 0 {
        None
    } else if ss[0] == s {
        Some(0int)
    } else {
        match find_str(ss.drop_first(), s) {
            Some(i) => Some(i + 1),
            None => None,
        }
    }
}

/// `find_str` returns the first matching index, or `None` exactly when the
/// string does not occur.
pub proof fn lemma_find_str(ss: Seq<Seq<char>>, s: Seq<char>)
    ensures
        match find_str(ss, s) {
            Some(i) => 0 <= i < ss.len() && ss[i] == s && (forall|j: int|
                0 <= j < i ==> ss[j] != s),
            None => forall|j: int| 0 <= j < ss.len() ==> ss[j] != s,
        },
    decreases ss.len(),
{
    if ss.len() > 0 && ss[0] != s {
        lemma_find_str(ss.drop_first(), s);
        assert(forall|j: int| 1 <= j < ss.len() ==> ss[j] == ss.drop_first()[j - 1]);
    }
}

/// The first position holding `s`, if any.
fn find_id_pos(v: &Vec<String>, s: &String) -> (r: Option<usize>)
    ensures
        match r {
            Some(i) => find_str(v.deep_view(), s@) == Some(i as int),
            None => find_str(v.deep_view(), s@) is None,
        },
{
    let mut k: usize = 0;
    while k < v.len()
        invariant
            k <= v.len(),
            forall|j: int| 0 <= j < k ==> v.deep_view()[j] != s@,
        decreases v.len() - k,
    {
        if v[k] == *s {
            proof {
                lemma_find_str(v.deep_view(), s@);
                assert(v.deep_view()[k as int] == s@);
                if let Some(i) = find_str(v.deep_view(), s@) {
                    assert(i <= k as int);
                    assert(i >= k as int);
                }
            }
            return Some(k);
        }
        k += 1;
    }
    proof {
        lemma_find_str(v.deep_view(), s@);
    }
    None
}

/// The position of the first member failure among a group's outcomes
/// (`None` an outcome of success), scanning in dispatch order.
pub open spec fn first_fail_index(outcomes: Seq<Option<Seq<char>>>) -> Option<int>
    decreases outcomes.len(),
{
    if outcomes.len() == 0 {
        None
    } else if outcomes[0] is Some {
        Some(0int)
    } else {
        match first_fail_index(outcomes.drop_first()) {
            Some(i) => Some(i + 1),
            None => None,
        }
    }
}

/// `first_fail_index` returns the first failing position, or `None` exactly
/// when every member succeeded.
pub proof fn lemma_first_fail_index(outcomes: Seq<Option<Seq<char>>>)
    ensures
        match first_fail_index(outcomes) {
            Some(i) => 0 <= i < outcomes.len() && outcomes[i] is Some && (forall|j: int|
                0 <= j < i ==> outcomes[j] is None),
            None => forall|j: int| 0 <= j < outcomes.len() ==> outcomes[j] is None,
        },
    decreases outcomes.len(),
{
    if outcomes.len() > 0 && outcomes[0] is None {
        lemma_first_fail_index(outcomes.drop_first());
        assert(forall|j: int|
            1 <= j < outcomes.len() ==> outcomes[j] == outcomes.drop_first()[j - 1]);
    }
}

/// The overall result a group composite reports over its members' outcomes
/// (`None` a success, `Some(message)` a backend failure): success only if
/// every member call succeeded, else the first failure — the members
/// already commanded are not rolled back.
pub fn fan_out_result(outcomes: &Vec<Option<String>>) -> (r: Result<(), Error>)
    ensures
        match r {
            Ok(()) => first_fail_index(outcomes.deep_view()) is None,
            Err(e) => match e {
                Error::Light(msg) => ({
                    &&& first_fail_index(outcomes.deep_view()) is Some
                    &&& outcomes.deep_view()[first_fail_index(outcomes.deep_view()).unwrap()]
                        == Some(msg@)
                }),
                Error::Absent => false,
            },
        },
{
    let mut k: usize = 0;
    while k < outcomes.len()
        invariant
            k <= outcomes.len(),
            forall|j: int| 0 <= j < k ==> outcomes.deep_view()[j] is None,
        decreases outcomes.len() - k,
    {
        match &outcomes[k] {
            Some(msg) => {
                proof {
                    lemma_first_fail_index(outcomes.deep_view());
                    assert(outcomes.deep_view()[k as int] == Some(msg@));
                    if let Some(i) = first_fail_index(outcomes.deep_view()) {
                        assert(i <= k as int);
                        assert(i >= k as int);
                    }
                }
                return Err(Error::Light(msg.clone()));
            },
            None => {},
        }
        k += 1;
    }
    proof {
        lemma_first_fail_index(outcomes.deep_view());
    }
    Ok(())
}

/// Law: dispatching the same command to the same light twice leaves exactly
/// the cache state that dispatching it once does, while the backend work is
/// recorded anew by each call — repeated commands are not deduplicated.
pub proof fn lemma_dispatch_idempotent(m: AppModel, id: Seq<char>, cmd: LightCommand)
    ensures
        spec_apply(spec_apply(m, id, cmd), id, cmd).lights == spec_apply(m, id, cmd).lights,
        find_light(m.lights, id) is Some ==> spec_apply(spec_apply(m, id, cmd), id, cmd).pending
            == spec_apply(m, id, cmd).pending.push(spec_apply(m, id, cmd).pending.last()),
        find_light(m.lights, id) is None ==> spec_apply(spec_apply(m, id, cmd), id, cmd) == m,
{
    match find_light(m.lights, id) {
        None => {},
        Some(i) => {
            lemma_find_light(m.lights, id);
            let e = m.lights[i];
            let e1 = apply_cmd(e, cmd);
            let once = spec_apply(m, id, cmd);
            lemma_find_light_update(m.lights, id, i, e1);
            assert(find_light(once.lights, id) == Some(i));
            assert(once.lights[i] == e1);
            assert(apply_cmd(e1, cmd) == e1);
            assert(once.lights.update(i, e1) =~= once.lights);
            assert(dispatch_action(e1, cmd) == dispatch_action(e, cmd));
            assert(once.pending.last() == dispatch_action(e, cmd));
        },
    }
}

/// Law: the cache is written before any backend is consulted and is never
/// rolled back. After dispatching `cmd` to a registered light, the entry's
/// cache holds exactly the requested value, and the backend work is only
/// *owed* — no backend outcome is an input to the registry's state, so a
/// later failure cannot undo the write. (The EXECUTE acknowledgement is
/// likewise fixed to `SUCCESS` for every batch by `exec_commands_ok` in
/// `fulfill`'s contract, and a group's aggregate failure is computed from
/// the outcomes only by `fan_out_result`.)
pub proof fn lemma_cache_before_backend(m: AppModel, id: Seq<char>, cmd: LightCommand)
    requires
        find_light(m.lights, id) is Some,
    ensures
        ({
            let i = find_light(m.lights, id).unwrap();
            let after = spec_apply(m, id, cmd);
            &&& after.lights[i] == apply_cmd(m.lights[i], cmd)
            &&& match cmd {
                LightCommand::Power(s) => after.lights[i].on == (s == PowerState::On),
                LightCommand::Brightness(b) => after.lights[i].brightness == b,
                LightCommand::SetColor(c) => after.lights[i].color == c,
            }
            &&& after.pending == m.pending.push(dispatch_action(m.lights[i], cmd))
        }),
{
    lemma_find_light(m.lights, id);
}

/// Law: after a light is admitted, the enumeration contains exactly the
/// fresh entry and the previously registered entries under other
/// identifiers — nothing else appears, nothing else is dropped, and the
/// identifiers stay unique; only a light that produced an identifier is
/// ever admitted.
pub proof fn lemma_registration_enumerates(
    m: AppModel,
    id: Seq<char>,
    name: Seq<char>,
    members: Option<Seq<Seq<char>>>,
)
    requires
        ids_unique(m.lights),
    ensures
        ({
            let fresh = fresh_light(id, name, members);
            let after = spec_insert_lights(m.lights, id, name, members);
            &&& ids_unique(after)
            &&& after.contains(fresh)
            &&& forall|j: int|
                0 <= j < after.len() ==> after[j] == fresh || (m.lights.contains(after[j])
                    && after[j].id != id)
            &&& forall|j: int|
                0 <= j < m.lights.len() && m.lights[j].id != id ==> after.contains(m.lights[j])
        }),
{
    lemma_find_light(m.lights, id);
    let fresh = fresh_light(id, name, members);
    let after = spec_insert_lights(m.lights, id, name, members);
    match find_light(m.lights, id) {
        Some(i) => {
            assert(after == m.lights.update(i, fresh));
            assert(after[i] == fresh);
            assert(after.contains(fresh));
            assert forall|j: int|
                0 <= j < after.len() implies after[j] == fresh || (m.lights.contains(after[j])
                    && after[j].id != id) by {
                if j != i {
                    assert(after[j] == m.lights[j]);
                    assert(m.lights.contains(m.lights[j]));
                    if j < i {
                        assert(m.lights[j].id != m.lights[i].id);
                    } else {
                        assert(m.lights[i].id != m.lights[j].id);
                    }
                }
            }
            assert forall|j: int|
                0 <= j < m.lights.len() && m.lights[j].id != id implies after.contains(
                m.lights[j],
            ) by {
                assert(after[j] == m.lights[j]);
            }
            assert forall|x: int, y: int|
                0 <= x < y < after.len() implies after[x].id != after[y].id by {
                assert(after[x].id == m.lights[x].id);
                assert(after[y].id == m.lights[y].id);
            }
        },
        None => {
            let n = m.lights.len() as int;
            assert(after == m.lights.push(fresh));
            assert(after[n] == fresh);
            assert(after.contains(fresh));
            assert forall|j: int|
                0 <= j < after.len() implies after[j] == fresh || (m.lights.contains(after[j])
                    && after[j].id != id) by {
                if j < n {
                    assert(after[j] == m.lights[j]);
                    assert(m.lights.contains(m.lights[j]));
                }
            }
            assert forall|j: int|
                0 <= j < m.lights.len() && m.lights[j].id != id implies after.contains(
                m.lights[j],
            ) by {
                assert(after[j] == m.lights[j]);
            }
            assert forall|x: int, y: int|
                0 <= x < y < after.len() implies after[x].id != after[y].id by {
                assert(after[x] == m.lights[x]);
                assert(after[x].id == m.lights[x].id);
                if y < n {
                    assert(after[y].id == m.lights[y].id);
                } else {
                    assert(after[y] == fresh);
                    assert(m.lights[x].id != id);
                }
            }
        },
    }
}

/// Clones a list of identifiers; `String::clone` returns the same value.
pub(crate) fn clone_ids(v: &Vec<String>) -> (r: Vec<String>)
    ensures
        r@ == v@,
{
    let r = v.clone();
    proof {
        assert forall|i: int| 0 <= i < v@.len() implies r@[i] == v@[i] by {
            assert(vstd::pervasive::cloned::<String>(v@[i], r@[i]));
        }
        assert(r@ =~= v@);
    }
    r
}

} // verus!
