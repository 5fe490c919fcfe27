use lights::fulfill::{
    fulfill, level_to_pct, pct_to_level, spectrum_to_rgb, Command, CommandCommand, CommandDevice,
    CommandParams, FulfillmentRequest, Input, IntentPayload, Payload, QueryColor,
};
use lights::{Action, App, Color, LightCommand, PowerState};

fn request(intent: &str, payload: Option<IntentPayload>) -> FulfillmentRequest {
    FulfillmentRequest {
        request_id: "req-1".to_owned(),
        inputs: vec![Input { intent: intent.to_owned(), payload }],
    }
}

#[test]
fn spectrum_round_trip_is_byte_exact() {
    for &(r, g, b) in &[(0u8, 0u8, 0u8), (255, 0, 0), (1, 2, 3), (255, 255, 255), (0, 128, 7)] {
        let packed = Color::Rgb { r, g, b }.to_spectrum();
        assert_eq!(spectrum_to_rgb(packed), Color::Rgb { r, g, b });
    }
    assert_eq!(Color::Rgb { r: 255, g: 0, b: 0 }.to_spectrum(), 0xFF0000);
    assert_eq!(Color::White { temperature: 3000 }.to_spectrum(), 0xFFFFFF);
}

#[test]
fn brightness_percentage_boundaries() {
    assert_eq!(pct_to_level(0), 0);
    assert_eq!(pct_to_level(100), 255);
    assert_eq!(pct_to_level(200), 255, "out-of-range percentages are clamped");
    assert_eq!(pct_to_level(50), 128);
    assert_eq!(pct_to_level(1), 3);
    assert_eq!(level_to_pct(0), 0);
    assert_eq!(level_to_pct(255), 100);
    assert_eq!(level_to_pct(128), 50);
}

#[test]
fn sync_lists_the_registry() {
    let mut app = App::new();
    app.push_light("abc".to_owned(), "Lamp".to_owned());
    let response = fulfill(request("action.devices.SYNC", None), &mut app);
    assert_eq!(response.request_id, "req-1");
    match response.payload.expect("a payload") {
        Payload::Sync { agent_user_id, devices } => {
            assert_eq!(agent_user_id, "haha.yes");
            assert_eq!(devices.len(), 1);
            let d = &devices[0];
            assert_eq!(d.id, "abc");
            assert_eq!(d.ty, "action.devices.types.LIGHT");
            assert!(d.traits.contains(&"action.devices.traits.OnOff".to_owned()));
            assert!(d.traits.contains(&"action.devices.traits.ColorSetting".to_owned()));
            assert!(d.traits.contains(&"action.devices.traits.Brightness".to_owned()));
            assert_eq!(d.name.name, "Lamp");
            assert!(!d.will_report_state);
            assert_eq!(d.attributes.color_model, "rgb");
            assert_eq!(d.attributes.color_temperature_range.temperature_min_k, 2000);
            assert_eq!(d.attributes.color_temperature_range.temperature_max_k, 7500);
        },
        _ => panic!("expected a SYNC payload"),
    }
}

#[test]
fn query_reports_cached_state() {
    let mut app = App::new();
    app.push_light("abc".to_owned(), "Lamp".to_owned());
    let id = "abc".to_owned();
    app.set_state(&id, PowerState::On).unwrap();
    app.set_brightness(&id, 128).unwrap();
    app.set_color(&id, Color::Rgb { r: 255, g: 0, b: 0 }).unwrap();

    let payload = Some(IntentPayload::Query {
        devices: vec![CommandDevice { id: "abc".to_owned() }],
    });
    let response = fulfill(request("action.devices.QUERY", payload), &mut app);
    match response.payload.expect("a payload") {
        Payload::Query { agent_user_id, devices } => {
            assert_eq!(agent_user_id, "haha.yes");
            assert_eq!(devices.len(), 1);
            let (id, qd) = &devices[0];
            assert_eq!(id, "abc");
            assert!(qd.on);
            assert_eq!(qd.brightness, 50);
            assert_eq!(qd.status, "SUCCESS");
            assert!(qd.online);
            match &qd.color {
                QueryColor::Rgb { spectrum_rgb, .. } => assert_eq!(*spectrum_rgb, 0xFF0000),
                _ => panic!("expected a spectrum color"),
            }
        },
        _ => panic!("expected a QUERY payload"),
    }
}

#[test]
fn query_reports_a_white_cache_as_a_temperature() {
    let mut app = App::new();
    app.push_light("abc".to_owned(), "Lamp".to_owned());
    let id = "abc".to_owned();
    app.set_color(&id, Color::White { temperature: 3000 }).unwrap();
    let payload = Some(IntentPayload::Query {
        devices: vec![CommandDevice { id: "abc".to_owned() }],
    });
    let response = fulfill(request("action.devices.QUERY", payload), &mut app);
    match response.payload.expect("a payload") {
        Payload::Query { devices, .. } => match &devices[0].1.color {
            QueryColor::White { temperature, .. } => assert_eq!(*temperature, 3000),
            _ => panic!("expected a temperature color"),
        },
        _ => panic!("expected a QUERY payload"),
    }

    // A light that was never commanded reports its daylight default.
    let mut fresh = App::new();
    fresh.push_light("new".to_owned(), "New".to_owned());
    let payload = Some(IntentPayload::Query {
        devices: vec![CommandDevice { id: "new".to_owned() }],
    });
    let response = fulfill(request("action.devices.QUERY", payload), &mut fresh);
    match response.payload.expect("a payload") {
        Payload::Query { devices, .. } => match &devices[0].1.color {
            QueryColor::White { temperature, .. } => assert_eq!(*temperature, 6500),
            _ => panic!("expected a temperature color"),
        },
        _ => panic!("expected a QUERY payload"),
    }
}

#[test]
fn query_omits_unknown_identifiers() {
    let mut app = App::new();
    app.push_light("abc".to_owned(), "Lamp".to_owned());
    let payload = Some(IntentPayload::Query {
        devices: vec![
            CommandDevice { id: "abc".to_owned() },
            CommandDevice { id: "ghost".to_owned() },
        ],
    });
    let response = fulfill(request("action.devices.QUERY", payload), &mut app);
    match response.payload.expect("a payload") {
        Payload::Query { devices, .. } => {
            assert_eq!(devices.len(), 1);
            assert_eq!(devices[0].0, "abc");
        },
        _ => panic!("expected a QUERY payload"),
    }
}

#[test]
fn execute_reports_success_despite_a_backend_failure() {
    let mut app = App::new();
    app.push_light("good".to_owned(), "Good".to_owned());
    app.push_light("bad".to_owned(), "Bad".to_owned());
    app.take_actions();

    let payload = Some(IntentPayload::Execute {
        commands: vec![Command {
            devices: vec![
                CommandDevice { id: "good".to_owned() },
                CommandDevice { id: "bad".to_owned() },
            ],
            execution: vec![CommandCommand {
                command: "action.devices.commands.OnOff".to_owned(),
                params: CommandParams::OnOff { on: true },
            }],
        }],
    });
    let response = fulfill(request("action.devices.EXECUTE", payload), &mut app);
    match response.payload.expect("a payload") {
        Payload::Execute { commands } => {
            assert_eq!(commands.len(), 1);
            assert_eq!(commands[0].ids, vec!["good".to_owned(), "bad".to_owned()]);
            assert_eq!(commands[0].status, "SUCCESS");
            assert!(commands[0].states.online);
        },
        _ => panic!("expected an EXECUTE payload"),
    }

    // The host now performs the owed backend calls; the one for "bad" fails.
    // The batch was already acknowledged as SUCCESS, and the cache keeps the
    // requested value for the failing device too: no rollback.
    let actions = app.take_actions();
    assert_eq!(actions.len(), 2);
    for (action, expected) in actions.iter().zip(["good", "bad"]) {
        match action {
            Action::Call { id, command } => {
                assert_eq!(id, expected);
                assert_eq!(*command, LightCommand::Power(PowerState::On));
            },
            _ => panic!("expected a backend call"),
        }
    }
    assert!(app.lights()[0].is_on());
    assert!(app.lights()[1].is_on());
}

#[test]
fn execute_converts_every_parameter_kind() {
    let mut app = App::new();
    app.push_light("abc".to_owned(), "Lamp".to_owned());
    let payload = Some(IntentPayload::Execute {
        commands: vec![Command {
            devices: vec![CommandDevice { id: "abc".to_owned() }],
            execution: vec![
                CommandCommand {
                    command: "action.devices.commands.BrightnessAbsolute".to_owned(),
                    params: CommandParams::Brightness { brightness: 100 },
                },
                CommandCommand {
                    command: "action.devices.commands.ColorAbsolute".to_owned(),
                    params: CommandParams::Color {
                        color: QueryColor::Rgb { spectrum_rgb: 0x010203, name: "".to_owned() },
                    },
                },
            ],
        }],
    });
    fulfill(request("action.devices.EXECUTE", payload), &mut app);
    let lw = &app.lights()[0];
    assert_eq!(lw.brightness(), 255);
    assert_eq!(lw.rgb_color(), Color::Rgb { r: 1, g: 2, b: 3 });

    let payload = Some(IntentPayload::Execute {
        commands: vec![Command {
            devices: vec![CommandDevice { id: "abc".to_owned() }],
            execution: vec![CommandCommand {
                command: "action.devices.commands.ColorAbsolute".to_owned(),
                params: CommandParams::Color {
                    color: QueryColor::White { temperature: 4000, name: "".to_owned() },
                },
            }],
        }],
    });
    fulfill(request("action.devices.EXECUTE", payload), &mut app);
    assert_eq!(app.lights()[0].rgb_color(), Color::White { temperature: 4000 });
}

#[test]
fn execute_on_an_unknown_device_still_succeeds() {
    let mut app = App::new();
    let payload = Some(IntentPayload::Execute {
        commands: vec![Command {
            devices: vec![CommandDevice { id: "ghost".to_owned() }],
            execution: vec![CommandCommand {
                command: "action.devices.commands.OnOff".to_owned(),
                params: CommandParams::OnOff { on: true },
            }],
        }],
    });
    let response = fulfill(request("action.devices.EXECUTE", payload), &mut app);
    match response.payload.expect("a payload") {
        Payload::Execute { commands } => {
            assert_eq!(commands[0].status, "SUCCESS");
            assert_eq!(commands[0].ids, vec!["ghost".to_owned()]);
        },
        _ => panic!("expected an EXECUTE payload"),
    }
    assert_eq!(app.take_actions().len(), 0);
}

#[test]
fn unanswered_intents_yield_no_payload() {
    let mut app = App::new();
    app.push_light("abc".to_owned(), "Lamp".to_owned());
    let response = fulfill(
        FulfillmentRequest {
            request_id: "req-2".to_owned(),
            inputs: vec![Input { intent: "action.devices.DISCONNECT".to_owned(), payload: None }],
        },
        &mut app,
    );
    assert_eq!(response.request_id, "req-2");
    assert!(response.payload.is_none());
}

#[test]
fn the_first_answered_input_wins() {
    let mut app = App::new();
    app.push_light("abc".to_owned(), "Lamp".to_owned());
    let response = fulfill(
        FulfillmentRequest {
            request_id: "req-3".to_owned(),
            inputs: vec![
                Input { intent: "action.devices.DISCONNECT".to_owned(), payload: None },
                Input { intent: "action.devices.SYNC".to_owned(), payload: None },
                Input {
                    intent: "action.devices.QUERY".to_owned(),
                    payload: Some(IntentPayload::Query { devices: vec![] }),
                },
            ],
        },
        &mut app,
    );
    assert!(matches!(response.payload, Some(Payload::Sync { .. })));
}

#[test]
fn query_after_execute_sees_the_new_cache() {
    let mut app = App::new();
    app.push_light("abc".to_owned(), "Lamp".to_owned());
    let payload = Some(IntentPayload::Execute {
        commands: vec![Command {
            devices: vec![CommandDevice { id: "abc".to_owned() }],
            execution: vec![CommandCommand {
                command: "action.devices.commands.BrightnessAbsolute".to_owned(),
                params: CommandParams::Brightness { brightness: 50 },
            }],
        }],
    });
    fulfill(request("action.devices.EXECUTE", payload), &mut app);
    let payload = Some(IntentPayload::Query {
        devices: vec![CommandDevice { id: "abc".to_owned() }],
    });
    let response = fulfill(request("action.devices.QUERY", payload), &mut app);
    match response.payload.expect("a payload") {
        Payload::Query { devices, .. } => {
            assert_eq!(devices[0].1.brightness, 50);
        },
        _ => panic!("expected a QUERY payload"),
    }
}
