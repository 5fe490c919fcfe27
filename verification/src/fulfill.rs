//! The smart-home intent translator: stateless rendering of the registry as
//! a SYNC device list, of cached state as a QUERY response, and parsing of
//! EXECUTE command batches into registry dispatches.
//!
//! The wire field names are fixed by the external platform; the host
//! serializes these types verbatim.

use vstd::prelude::*;

use crate::{
    spec_apply, spec_spectrum, App, AppModel, Color, LightCommand, LightModel, PowerState,
};

verus! {

use vstd::string::StringExecFns;

/// One step of a fulfillment request: an intent name and its payload.
pub struct Input {
    pub intent: String,
    pub payload: Option<IntentPayload>,
}

/// The payload accompanying an EXECUTE or QUERY intent.
pub enum IntentPayload {
    Execute { commands: Vec<Command> },
    Query { devices: Vec<CommandDevice> },
}

/// A device named by an EXECUTE or QUERY payload.
pub struct CommandDevice {
    pub id: String,
}

/// One EXECUTE command: a set of target devices and the operations to apply
/// to each.
pub struct Command {
    pub devices: Vec<CommandDevice>,
    pub execution: Vec<CommandCommand>,
}

/// One parameterized operation within an EXECUTE command.
pub struct CommandCommand {
    pub command: String,
    pub params: CommandParams,
}

/// The parameters of an EXECUTE operation.
pub enum CommandParams {
    OnOff { on: bool },
    Brightness { brightness: u8 },
    Color { color: QueryColor },
}

/// The external color representation: a Kelvin temperature or a 24-bit
/// packed RGB spectrum integer.
pub enum QueryColor {
    White { temperature: u32, name: String },
    Rgb { spectrum_rgb: u32, name: String },
}

/// A whole fulfillment request: its correlation identifier and inputs.
pub struct FulfillmentRequest {
    pub request_id: String,
    pub inputs: Vec<Input>,
}

/// The response to a fulfillment request, echoing the correlation
/// identifier.
pub struct FulfillmentResponse {
    pub request_id: String,
    pub payload: Option<Payload>,
}

/// The payload of a fulfillment response, one shape per intent kind.
#[allow(inconsistent_fields)]
pub enum Payload {
    Sync { agent_user_id: String, devices: Vec<Device> },
    Query { agent_user_id: String, devices: Vec<(String, QueryDevice)> },
    Execute { commands: Vec<ExecCommand> },
}

/// The per-command acknowledgement of an EXECUTE response.
pub struct ExecCommand {
    pub ids: Vec<String>,
    pub status: String,
    pub states: ExecStates,
}

/// The state block of an EXECUTE acknowledgement.
pub struct ExecStates {
    pub online: bool,
}

/// The cached snapshot of one light as a QUERY response reports it.
pub struct QueryDevice {
    pub status: String,
    pub online: bool,
    pub brightness: u8,
    pub on: bool,
    pub color: QueryColor,
}

/// One device descriptor of a SYNC response.
pub struct Device {
    pub id: String,
    pub ty: String,
    pub traits: Vec<String>,
    pub name: Name,
    pub will_report_state: bool,
    pub attributes: DeviceAttributes,
}

/// The fixed capability attributes a SYNC response reports for a light.
pub struct DeviceAttributes {
    pub color_model: String,
    pub color_temperature_range: ColorTemperatureRange,
}

/// The Kelvin range a SYNC response reports as settable.
pub struct ColorTemperatureRange {
    pub temperature_min_k: u32,
    pub temperature_max_k: u32,
}

/// A display name, as the wire contract nests it.
pub struct Name {
    pub name: String,
}

/// The agent identity reported to the voice platform.
pub fn agent_user_id() -> (r: String)
    ensures
        r@ == "haha.yes"@,
{
    "haha.yes".to_owned()
}

/// The internal 0..=255 brightness value for an external percentage: the
/// nearest level, halves rounding up; percentages above 100 saturate at
/// full brightness.
pub open spec fn spec_pct_to_level(pct: u8) -> u8 {
    if pct >= 100 {
        255u8
    } else {
        ((pct * 255 + 50) / 100) as u8
    }
}

/// Converts an external brightness percentage to the internal 0..=255
/// value: 0 maps to 0, 100 to 255, and inputs above 100 are clamped to 255.
pub fn pct_to_level(pct: u8) -> (r: u8)
    ensures
        r == spec_pct_to_level(pct),
        pct == 0 ==> r == 0,
        pct >= 100 ==> r == 255,
{
    if pct >= 100 {
        255
    } else {
        ((pct as u32 * 255 + 50) / 100) as u8
    }
}

/// The external 0..=100 percentage for an internal brightness level: the
/// nearest percentage, halves rounding up.
pub open spec fn spec_level_to_pct(level: u8) -> u8 {
    ((200 * level + 255) / 510) as u8
}

/// Converts an internal 0..=255 brightness level to the external
/// percentage: 0 maps to 0 and 255 to 100.
pub fn level_to_pct(level: u8) -> (r: u8)
    ensures
        r == spec_level_to_pct(level),
        level == 0 ==> r == 0,
        level == 255 ==> r == 100,
{
    ((200 * level as u32 + 255) / 510) as u8
}

/// The color carried by a spectrum integer: its low three bytes, split as
/// the hexadecimal representation is, two digits a byte.
pub open spec fn spec_spectrum_rgb(s: u32) -> Color {
    Color::Rgb {
        r: ((s / 0x10000) % 0x100) as u8,
        g: ((s / 0x100) % 0x100) as u8,
        b: (s % 0x100) as u8,
    }
}

/// Splits a spectrum integer into its RGB bytes.
pub fn spectrum_to_rgb(s: u32) -> (c: Color)
    ensures
        c == spec_spectrum_rgb(s),
{
    Color::Rgb { r: ((s / 0x10000) % 0x100) as u8, g: ((s / 0x100) % 0x100) as u8, b: (s % 0x100) as u8 }
}

/// Law: packing an RGB color into a QUERY spectrum integer and splitting it
/// back yields the same bytes exactly — the packing is lossless.
pub proof fn lemma_spectrum_round_trip(r: u8, g: u8, b: u8)
    ensures
        spec_spectrum_rgb(spec_spectrum(Color::Rgb { r, g, b }) as u32) == (Color::Rgb { r, g, b }),
{
    let s = spec_spectrum(Color::Rgb { r, g, b });
    assert(0 <= s < 0x1000000);
    assert(s as u32 == (r as u32) * 0x10000 + (g as u32) * 0x100 + (b as u32));
    let sv = s as u32;
    assert((sv / 0x10000) % 0x100 == r as u32 && (sv / 0x100) % 0x100 == g as u32 && sv % 0x100
        == b as u32) by (bit_vector)
        requires
            sv == (r as u32) * 0x10000 + (g as u32) * 0x100 + (b as u32),
    ;
}

/// Whether the translator answers this intent.
pub open spec fn handled(intent: Seq<char>) -> bool {
    ||| intent == "action.devices.SYNC"@
    ||| intent == "action.devices.EXECUTE"@
    ||| intent == "action.devices.QUERY"@
}

/// The first input whose intent the translator answers, scanning in order.
pub open spec fn first_handled(inputs: Seq<Input>) -> Option<int>
    decreases inputs.len(),
{
    if inputs.len() == 0 {
        None
    } else if handled(inputs[0].intent@) {
        Some(0int)
    } else {
        match first_handled(inputs.drop_first()) {
            Some(i) => Some(i + 1),
            None => None,
        }
    }
}

/// `first_handled` returns the first answered input, or `None` exactly when
/// no input carries an answered intent.
pub proof fn lemma_first_handled(inputs: Seq<Input>)
    ensures
        match first_handled(inputs) {
            Some(i) => 0 <= i < inputs.len() && handled(inputs[i].intent@) && (forall|j: int|
                0 <= j < i ==> !handled(inputs[j].intent@)),
            None => forall|j: int| 0 <= j < inputs.len() ==> !handled(inputs[j].intent@),
        },
    decreases inputs.len(),
{
    if inputs.len() > 0 && !handled(inputs[0].intent@) {
        lemma_first_handled(inputs.drop_first());
        assert(forall|j: int| 1 <= j < inputs.len() ==> inputs[j] == inputs.drop_first()[j - 1]);
    }
}

/// What a SYNC response owes for one registered light: the identifier, the
/// fixed LIGHT type and trait set, the display name, and the fixed color
/// capability range.
pub open spec fn device_descriptor_ok(d: Device, m: LightModel) -> bool {
    &&& d.id@ == m.id
    &&& d.ty@ == "action.devices.types.LIGHT"@
    &&& d.traits@.len() == 3
    &&& d.traits@[0]@ == "action.devices.traits.OnOff"@
    &&& d.traits@[1]@ == "action.devices.traits.ColorSetting"@
    &&& d.traits@[2]@ == "action.devices.traits.Brightness"@
    &&& d.name.name@ == m.name
    &&& d.will_report_state == false
    &&& d.attributes.color_model@ == "rgb"@
    &&& d.attributes.color_temperature_range.temperature_min_k == 2000
    &&& d.attributes.color_temperature_range.temperature_max_k == 7500
}

/// A SYNC response lists every registered light, in enumeration order.
pub open spec fn sync_devices_ok(ds: Seq<Device>, lights: Seq<LightModel>) -> bool {
    &&& ds.len() == lights.len()
    &&& forall|j: int| 0 <= j < ds.len() ==> device_descriptor_ok(#[trigger] ds[j], lights[j])
}

/// Whether a QUERY payload asks for this identifier.
pub open spec fn id_requested(devices: Seq<CommandDevice>, id: Seq<char>) -> bool {
    exists|k: int| 0 <= k < devices.len() && devices[k].id@ == id
}

/// The registered lights a QUERY answers for: those whose identifier was
/// asked for, in enumeration order; unknown identifiers are silently
/// omitted.
pub open spec fn query_selected(lights: Seq<LightModel>, devices: Seq<CommandDevice>) -> Seq<
    LightModel,
> {
    lights.filter(|m: LightModel| id_requested(devices, m.id))
}

/// What a QUERY response owes for one selected light: always online, the
/// cached on/off flag, the brightness as a percentage, and the cached
/// color — an RGB cache packed as a spectrum integer, a white cache as its
/// Kelvin temperature.
pub open spec fn query_entry_ok(p: (String, QueryDevice), m: LightModel) -> bool {
    &&& p.0@ == m.id
    &&& p.1.status@ == "SUCCESS"@
    &&& p.1.online == true
    &&& p.1.brightness == spec_level_to_pct(m.brightness)
    &&& p.1.on == m.on
    &&& match m.color {
        Color::Rgb { .. } => (match p.1.color {
            QueryColor::Rgb { spectrum_rgb, name } => spectrum_rgb == spec_spectrum(m.color)
                && name@ =~= Seq::<char>::empty(),
            QueryColor::White { .. } => false,
        }),
        Color::White { temperature } => (match p.1.color {
            QueryColor::White { temperature: t, name } => t == temperature && name@ =~= Seq::<
                char,
            >::empty(),
            QueryColor::Rgb { .. } => false,
        }),
    }
}

/// A QUERY response reports exactly the selected lights, in enumeration
/// order.
pub open spec fn query_ok(
    qds: Seq<(String, QueryDevice)>,
    lights: Seq<LightModel>,
    devices: Seq<CommandDevice>,
) -> bool {
    let sel = query_selected(lights, devices);
    &&& qds.len() == sel.len()
    &&& forall|j: int| 0 <= j < qds.len() ==> query_entry_ok(#[trigger] qds[j], sel[j])
}

/// What an EXECUTE response owes for one command batch: the targeted
/// identifiers and a blanket SUCCESS, whatever the backends do.
pub open spec fn exec_command_ok(ec: ExecCommand, c: Command) -> bool {
    &&& ec.ids@.len() == c.devices@.len()
    &&& forall|k: int| 0 <= k < ec.ids@.len() ==> (#[trigger] ec.ids@[k])@ == c.devices@[k].id@
    &&& ec.status@ == "SUCCESS"@
    &&& ec.states.online == true
}

/// An EXECUTE response acknowledges every command batch, in order.
pub open spec fn exec_commands_ok(ecs: Seq<ExecCommand>, cs: Seq<Command>) -> bool {
    &&& ecs.len() == cs.len()
    &&& forall|j: int| 0 <= j < ecs.len() ==> exec_command_ok(#[trigger] ecs[j], cs[j])
}

/// The registry after one EXECUTE operation on one device: parameters are
/// converted to internal units and dispatched; a percentage becomes a
/// 0..=255 level, a spectrum integer is split into bytes, and a Kelvin
/// value passes through unchanged.
pub open spec fn apply_param(m: AppModel, id: Seq<char>, p: CommandParams) -> AppModel {
    match p {
        CommandParams::OnOff { on } => spec_apply(
            m,
            id,
            LightCommand::Power(
                if on {
                    PowerState::On
                } else {
                    PowerState::Off
                },
            ),
        ),
        CommandParams::Brightness { brightness } => spec_apply(
            m,
            id,
            LightCommand::Brightness(spec_pct_to_level(brightness)),
        ),
        CommandParams::Color { color } => match color {
            QueryColor::Rgb { spectrum_rgb, .. } => spec_apply(
                m,
                id,
                LightCommand::SetColor(spec_spectrum_rgb(spectrum_rgb)),
            ),
            QueryColor::White { temperature, .. } => spec_apply(
                m,
                id,
                LightCommand::SetColor(Color::White { temperature }),
            ),
        },
    }
}

/// The registry after applying each operation of an EXECUTE command to one
/// device, in order.
pub open spec fn apply_execution(m: AppModel, id: Seq<char>, ps: Seq<CommandCommand>) -> AppModel
    decreases ps.len(),
{
    if ps.len() == 0 {
        m
    } else {
        apply_execution(apply_param(m, id, ps[0].params), id, ps.drop_first())
    }
}

/// The registry after applying an EXECUTE command to each of its devices,
/// in order.
pub open spec fn apply_devices(
    m: AppModel,
    devices: Seq<CommandDevice>,
    ps: Seq<CommandCommand>,
) -> AppModel
    decreases devices.len(),
{
    if devices.len() == 0 {
        m
    } else {
        apply_devices(apply_execution(m, devices[0].id@, ps), devices.drop_first(), ps)
    }
}

/// The registry after an EXECUTE batch: each command, each of its devices,
/// each operation, in order; every pair is processed independently, and a
/// failure never aborts the batch.
pub open spec fn apply_commands(m: AppModel, cs: Seq<Command>) -> AppModel
    decreases cs.len(),
{
    if cs.len() == 0 {
        m
    } else {
        apply_commands(apply_devices(m, cs[0].devices@, cs[0].execution@), cs.drop_first())
    }
}

/// Everything `fulfill` promises beyond echoing the request identifier: the
/// first answered input determines the payload shape and the registry
/// effect; SYNC and QUERY never mutate the registry, EXECUTE applies every
/// command and reports blanket success, and a request with no answered
/// input changes nothing and carries no payload.
pub open spec fn fulfill_post(
    request: FulfillmentRequest,
    m0: AppModel,
    m1: AppModel,
    r: FulfillmentResponse,
) -> bool {
    match first_handled(request.inputs@) {
        None => m1 == m0 && r.payload is None,
        Some(i) => {
            let input = request.inputs@[i];
            if input.intent@ == "action.devices.SYNC"@ {
                &&& m1 == m0
                &&& match r.payload {
                    Some(Payload::Sync { agent_user_id, devices }) => agent_user_id@ == "haha.yes"@
                        && sync_devices_ok(devices@, m0.lights),
                    _ => false,
                }
            } else if input.intent@ == "action.devices.EXECUTE"@ {
                match input.payload {
                    Some(IntentPayload::Execute { commands }) => {
                        &&& m1 == apply_commands(m0, commands@)
                        &&& match r.payload {
                            Some(Payload::Execute { commands: ecs }) => exec_commands_ok(
                                ecs@,
                                commands@,
                            ),
                            _ => false,
                        }
                    },
                    _ => m1 == m0 && (match r.payload {
                        Some(Payload::Execute { commands: ecs }) => ecs@.len() == 0,
                        _ => false,
                    }),
                }
            } else {
                match input.payload {
                    Some(IntentPayload::Query { devices }) => {
                        &&& m1 == m0
                        &&& match r.payload {
                            Some(Payload::Query { agent_user_id, devices: qds }) => agent_user_id@
                                == "haha.yes"@ && query_ok(qds@, m0.lights, devices@),
                            _ => false,
                        }
                    },
                    _ => m1 == m0 && r.payload is None,
                }
            }
        },
    }
}

/// `s.take(k + 1)` filters to `s.take(k)`'s selection, extended by `s[k]`
/// exactly when the predicate admits it.
pub(crate) proof fn lemma_filter_take_step<A>(s: Seq<A>, pred: spec_fn(A) -> bool, k: int)
    requires
        0 <= k < s.len(),
    ensures
        s.take(k + 1).filter(pred) == if pred(s[k]) {
            s.take(k).filter(pred).push(s[k])
        } else {
            s.take(k).filter(pred)
        },
{
    reveal(Seq::filter);
    assert(s.take(k + 1).drop_last() =~= s.take(k));
    assert(s.take(k + 1).last() == s[k]);
}

/// Whether `lit` names this intent.
fn intent_is(intent: &String, lit: &str) -> (r: bool)
    ensures
        r == (intent@ == lit@),
{
    let s = lit.to_owned();
    *intent == s
}

/// The first input whose intent the translator answers, if any.
fn first_handled_index(inputs: &Vec<Input>) -> (r: Option<usize>)
    ensures
        match r {
            Some(i) => first_handled(inputs@) == Some(i as int),
            None => first_handled(inputs@) is None,
        },
{
    let mut k: usize = 0;
    while k < inputs.len()
        invariant
            k <= inputs.len(),
            forall|j: int| 0 <= j < k ==> !handled(inputs@[j].intent@),
        decreases inputs.len() - k,
    {
        let sync = intent_is(&inputs[k].intent, "action.devices.SYNC");
        let execute = intent_is(&inputs[k].intent, "action.devices.EXECUTE");
        let query = intent_is(&inputs[k].intent, "action.devices.QUERY");
        if sync || execute || query {
            proof {
                lemma_first_handled(inputs@);
                assert(handled(inputs@[k as int].intent@));
                if let Some(i) = first_handled(inputs@) {
                    assert(i <= k as int);
                    assert(i >= k as int);
                }
            }
            return Some(k);
        }
        k += 1;
    }
    proof {
        lemma_first_handled(inputs@);
    }
    None
}

/// Renders every registered light as a SYNC device descriptor.
fn sync_payload(app: &App) -> (devices: Vec<Device>)
    ensures
        sync_devices_ok(devices@, app@.lights),
{
    let mut devices: Vec<Device> = Vec::new();
    let mut k: usize = 0;
    while k < app.lights.len()
        invariant
            k <= app.lights.len(),
            devices@.len() == k,
            forall|j: int| 0 <= j < k ==> device_descriptor_ok(#[trigger] devices@[j], app@.lights[j]),
        decreases app.lights.len() - k,
    {
        let lw = &app.lights[k];
        let mut traits: Vec<String> = Vec::new();
        traits.push("action.devices.traits.OnOff".to_owned());
        traits.push("action.devices.traits.ColorSetting".to_owned());
        traits.push("action.devices.traits.Brightness".to_owned());
        let d = Device {
            id: lw.id(),
            ty: "action.devices.types.LIGHT".to_owned(),
            traits,
            name: Name { name: lw.name().clone() },
            will_report_state: false,
            attributes: DeviceAttributes {
                color_model: "rgb".to_owned(),
                color_temperature_range: ColorTemperatureRange {
                    temperature_min_k: 2000,
                    temperature_max_k: 7500,
                },
            },
        };
        proof {
            assert(device_descriptor_ok(d, app@.lights[k as int]));
        }
        devices.push(d);
        k += 1;
    }
    devices
}

/// Whether the QUERY payload asks for this identifier.
fn id_requested_exec(devices: &Vec<CommandDevice>, id: &String) -> (r: bool)
    ensures
        r == id_requested(devices@, id@),
{
    let mut k: usize = 0;
    while k < devices.len()
        invariant
            k <= devices.len(),
            forall|j: int| 0 <= j < k ==> devices@[j].id@ != id@,
        decreases devices.len() - k,
    {
        if devices[k].id == *id {
            return true;
        }
        k += 1;
    }
    false
}

/// Renders the cached snapshot of every requested light, omitting unknown
/// identifiers.
fn query_payload(app: &App, requested: &Vec<CommandDevice>) -> (qds: Vec<(String, QueryDevice)>)
    ensures
        query_ok(qds@, app@.lights, requested@),
{
    let ghost pred = |m: LightModel| id_requested(requested@, m.id);
    let mut qds: Vec<(String, QueryDevice)> = Vec::new();
    let mut k: usize = 0;
    while k < app.lights.len()
        invariant
            k <= app.lights.len(),
            qds@.len() == app@.lights.take(k as int).filter(pred).len(),
            forall|j: int|
                0 <= j < qds@.len() ==> query_entry_ok(
                    #[trigger] qds@[j],
                    app@.lights.take(k as int).filter(pred)[j],
                ),
            pred == (|m: LightModel| id_requested(requested@, m.id)),
        decreases app.lights.len() - k,
    {
        let lw = &app.lights[k];
        let wanted = id_requested_exec(requested, &lw.id);
        proof {
            lemma_filter_take_step(app@.lights, pred, k as int);
            assert(pred(app@.lights[k as int]) == wanted);
        }
        if wanted {
            let cached = lw.rgb_color();
            let color = match cached {
                Color::White { temperature } => QueryColor::White {
                    temperature,
                    name: "".to_owned(),
                },
                Color::Rgb { .. } => QueryColor::Rgb {
                    spectrum_rgb: cached.to_spectrum(),
                    name: "".to_owned(),
                },
            };
            let qd = QueryDevice {
                status: "SUCCESS".to_owned(),
                online: true,
                brightness: level_to_pct(lw.brightness()),
                on: lw.is_on(),
                color,
            };
            let pair = (lw.id(), qd);
            proof {
                reveal_strlit("");
                assert(query_entry_ok(pair, app@.lights[k as int]));
            }
            qds.push(pair);
        }
        k += 1;
    }
    proof {
        assert(app@.lights.take(app.lights.len() as int) =~= app@.lights);
    }
    qds
}

/// Applies every (command, device, operation) triple of an EXECUTE batch to
/// the registry, each independently — a failing or unknown device never
/// aborts the others — and acknowledges each command with a blanket
/// SUCCESS.
fn run_execute(app: &mut App, commands: &Vec<Command>) -> (ecs: Vec<ExecCommand>)
    requires
        old(app).wf(),
    ensures
        final(app).wf(),
        final(app)@ == apply_commands(old(app)@, commands@),
        exec_commands_ok(ecs@, commands@),
{
    let ghost m0 = app@;
    proof {
        assert(commands@.skip(0) =~= commands@);
    }
    let mut ecs: Vec<ExecCommand> = Vec::new();
    let mut ci: usize = 0;
    while ci < commands.len()
        invariant
            ci <= commands.len(),
            app.wf(),
            apply_commands(m0, commands@) == apply_commands(app@, commands@.skip(ci as int)),
            ecs@.len() == ci,
            forall|j: int| 0 <= j < ci ==> exec_command_ok(#[trigger] ecs@[j], commands@[j]),
        decreases commands.len() - ci,
    {
        let command = &commands[ci];
        let mut ids: Vec<String> = Vec::new();
        let mut di: usize = 0;
        while di < command.devices.len()
            invariant
                di <= command.devices.len(),
                ids@.len() == di,
                forall|k: int| 0 <= k < di ==> (#[trigger] ids@[k])@ == command.devices@[k].id@,
            decreases command.devices.len() - di,
        {
            ids.push(command.devices[di].id.clone());
            di += 1;
        }
        let ec = ExecCommand {
            ids,
            status: "SUCCESS".to_owned(),
            states: ExecStates { online: true },
        };
        proof {
            assert(exec_command_ok(ec, commands@[ci as int]));
        }
        ecs.push(ec);

        let ghost mc = app@;
        proof {
            assert(command.devices@.skip(0) =~= command.devices@);
        }
        let mut di: usize = 0;
        while di < command.devices.len()
            invariant
                di <= command.devices.len(),
                app.wf(),
                apply_devices(mc, command.devices@, command.execution@) == apply_devices(
                    app@,
                    command.devices@.skip(di as int),
                    command.execution@,
                ),
            decreases command.devices.len() - di,
        {
            let device_id = &command.devices[di].id;
            let ghost md = app@;
            proof {
                assert(command.execution@.skip(0) =~= command.execution@);
            }
            let mut ei: usize = 0;
            while ei < command.execution.len()
                invariant
                    ei <= command.execution.len(),
                    app.wf(),
                    apply_execution(md, device_id@, command.execution@) == apply_execution(
                        app@,
                        device_id@,
                        command.execution@.skip(ei as int),
                    ),
                decreases command.execution.len() - ei,
            {
                let ghost before = app@;
                match &command.execution[ei].params {
                    CommandParams::OnOff { on } => {
                        let _ = app.set_state(device_id, PowerState::from(*on));
                    },
                    CommandParams::Brightness { brightness } => {
                        let _ = app.set_brightness(device_id, pct_to_level(*brightness));
                    },
                    CommandParams::Color { color } => match color {
                        QueryColor::Rgb { spectrum_rgb, .. } => {
                            let _ = app.set_color(device_id, spectrum_to_rgb(*spectrum_rgb));
                        },
                        QueryColor::White { temperature, .. } => {
                            let _ = app.set_color(
                                device_id,
                                Color::White { temperature: *temperature },
                            );
                        },
                    },
                }
                proof {
                    assert(app@ == apply_param(
                        before,
                        device_id@,
                        command.execution@[ei as int].params,
                    ));
                    assert(command.execution@.skip(ei as int).drop_first() =~= command.execution@
                        .skip(ei as int + 1));
                    assert(command.execution@.skip(ei as int)[0] == command.execution@[ei as int]);
                }
                ei += 1;
            }
            proof {
                assert(command.execution@.skip(command.execution@.len() as int) =~= Seq::<
                    CommandCommand,
                >::empty());
                assert(command.devices@.skip(di as int).drop_first() =~= command.devices@.skip(
                    di as int + 1,
                ));
                assert(command.devices@.skip(di as int)[0] == command.devices@[di as int]);
            }
            di += 1;
        }
        proof {
            assert(command.devices@.skip(command.devices@.len() as int) =~= Seq::<
                CommandDevice,
            >::empty());
            assert(commands@.skip(ci as int).drop_first() =~= commands@.skip(ci as int + 1));
            assert(commands@.skip(ci as int)[0] == commands@[ci as int]);
        }
        ci += 1;
    }
    proof {
        assert(commands@.skip(commands@.len() as int) =~= Seq::<Command>::empty());
    }
    ecs
}

/// Answers the first SYNC, QUERY or EXECUTE input of a fulfillment request:
/// SYNC lists every registered light, QUERY reports cached state for the
/// requested identifiers, and EXECUTE dispatches each command batch and
/// reports blanket success; the response echoes the request identifier.
pub fn fulfill(request: FulfillmentRequest, app: &mut App) -> (r: FulfillmentResponse)
    requires
        old(app).wf(),
    ensures
        final(app).wf(),
        r.request_id@ == request.request_id@,
        fulfill_post(request, old(app)@, final(app)@, r),
{
    let FulfillmentRequest { request_id, inputs } = request;
    let mut payload: Option<Payload> = None;
    match first_handled_index(&inputs) {
        None => {},
        Some(i) => {
            proof {
                lemma_first_handled(inputs@);
            }
            let input = &inputs[i];
            if intent_is(&input.intent, "action.devices.SYNC") {
                payload = Some(Payload::Sync {
                    agent_user_id: agent_user_id(),
                    devices: sync_payload(app),
                });
            } else if intent_is(&input.intent, "action.devices.EXECUTE") {
                let mut ecs: Vec<ExecCommand> = Vec::new();
                match &input.payload {
                    Some(IntentPayload::Execute { commands }) => {
                        ecs = run_execute(app, commands);
                    },
                    _ => {},
                }
                payload = Some(Payload::Execute { commands: ecs });
            } else {
                match &input.payload {
                    Some(IntentPayload::Query { devices }) => {
                        payload = Some(Payload::Query {
                            agent_user_id: agent_user_id(),
                            devices: query_payload(app, devices),
                        });
                    },
                    _ => {},
                }
            }
        },
    }
    FulfillmentResponse { request_id, payload }
}

} // verus!
