use lights::api::{AddLightToGroup, CheckAuth, Enumerate, MakeGroup, RemoveLightFromGroup, Request, State};
use lights::{fan_out_result, Action, App, Color, Error, LightCommand, PowerState};

fn device_app() -> App {
    let mut app = App::new();
    app.push_light("abc".to_owned(), "Lamp".to_owned());
    app.push_light("def".to_owned(), "Desk".to_owned());
    app
}

#[test]
fn registration_enumerates_exactly_the_admitted_lights() {
    let mut app = App::new();
    assert_eq!(app.lights().len(), 0);
    app.push_light("abc".to_owned(), "Lamp".to_owned());
    app.push_light("def".to_owned(), "Desk".to_owned());
    let lights = app.lights();
    assert_eq!(lights.len(), 2);
    assert_eq!(lights[0].id(), "abc");
    assert_eq!(lights[0].name().as_str(), "Lamp");
    assert_eq!(lights[1].id(), "def");
    assert_eq!(lights[1].name().as_str(), "Desk");
}

#[test]
fn registration_starts_with_default_cache() {
    let mut app = App::new();
    app.push_light("abc".to_owned(), "Lamp".to_owned());
    let lw = &app.lights()[0];
    assert!(!lw.is_on());
    assert_eq!(lw.brightness(), 0);
    assert_eq!(lw.rgb_color(), Color::White { temperature: 6500 });
}

#[test]
fn registration_replaces_an_entry_under_the_same_identifier() {
    let mut app = device_app();
    let id = "abc".to_owned();
    app.set_brightness(&id, 40).unwrap();
    app.push_light("abc".to_owned(), "New Lamp".to_owned());
    let lights = app.lights();
    assert_eq!(lights.len(), 2);
    assert_eq!(lights[0].id(), "abc");
    assert_eq!(lights[0].name().as_str(), "New Lamp");
    assert_eq!(lights[0].brightness(), 0);
}

#[test]
fn registration_owes_a_sync_notification() {
    let mut app = App::new();
    app.push_light("abc".to_owned(), "Lamp".to_owned());
    let actions = app.take_actions();
    assert_eq!(actions.len(), 1);
    assert!(matches!(actions[0], Action::RequestSync));
    assert_eq!(app.take_actions().len(), 0);
}

#[test]
fn bulk_registration_owes_one_sync_notification() {
    let mut app = App::new();
    app.push_lights(vec![
        ("abc".to_owned(), "Lamp".to_owned()),
        ("def".to_owned(), "Desk".to_owned()),
    ]);
    assert_eq!(app.lights().len(), 2);
    let actions = app.take_actions();
    assert_eq!(actions.len(), 1);
    assert!(matches!(actions[0], Action::RequestSync));
}

#[test]
fn set_state_updates_cache_and_owes_a_backend_call() {
    let mut app = device_app();
    app.take_actions();
    let id = "abc".to_owned();
    app.set_state(&id, PowerState::On).unwrap();
    assert!(app.lights()[0].is_on());
    assert!(!app.lights()[1].is_on());
    let actions = app.take_actions();
    assert_eq!(actions.len(), 1);
    match &actions[0] {
        Action::Call { id, command } => {
            assert_eq!(id, "abc");
            assert_eq!(*command, LightCommand::Power(PowerState::On));
        },
        _ => panic!("expected a backend call"),
    }
}

#[test]
fn set_state_twice_is_idempotent_on_cache_but_not_on_backend_calls() {
    let mut app = device_app();
    app.take_actions();
    let id = "abc".to_owned();
    app.set_state(&id, PowerState::On).unwrap();
    let on_after_one = app.lights()[0].is_on();
    let brightness_after_one = app.lights()[0].brightness();
    let color_after_one = app.lights()[0].rgb_color();
    app.set_state(&id, PowerState::On).unwrap();
    assert_eq!(app.lights()[0].is_on(), on_after_one);
    assert_eq!(app.lights()[0].brightness(), brightness_after_one);
    assert_eq!(app.lights()[0].rgb_color(), color_after_one);
    let actions = app.take_actions();
    assert_eq!(actions.len(), 2);
    for action in &actions {
        match action {
            Action::Call { id, command } => {
                assert_eq!(id, "abc");
                assert_eq!(*command, LightCommand::Power(PowerState::On));
            },
            _ => panic!("expected a backend call"),
        }
    }
}

#[test]
fn set_state_on_an_unknown_identifier_is_absent() {
    let mut app = device_app();
    app.take_actions();
    let id = "nope".to_owned();
    let err = app.set_state(&id, PowerState::On).unwrap_err();
    assert!(matches!(err, Error::Absent));
    assert_eq!(err.describe(), "nonexistent light accessed");
    assert_eq!(app.take_actions().len(), 0);
}

#[test]
fn set_brightness_and_color_update_the_cache() {
    let mut app = device_app();
    let id = "def".to_owned();
    app.set_brightness(&id, 128).unwrap();
    app.set_color(&id, Color::Rgb { r: 255, g: 0, b: 0 }).unwrap();
    let lw = &app.lights()[1];
    assert_eq!(lw.brightness(), 128);
    assert_eq!(lw.rgb_color(), Color::Rgb { r: 255, g: 0, b: 0 });
    assert_eq!(lw.color(), 0xFF0000);
}

#[test]
fn group_fan_out_reaches_every_member_backend() {
    let mut app = App::new();
    app.push_light("a".to_owned(), "A".to_owned());
    app.push_light("b".to_owned(), "B".to_owned());
    let gid = "g1".to_owned();
    app.make_group(&gid, vec!["a".to_owned(), "b".to_owned()]);
    app.take_actions();

    let group_id = "Group g1".to_owned();
    app.set_state(&group_id, PowerState::Off).unwrap();
    let actions = app.take_actions();
    assert_eq!(actions.len(), 1);
    let (members, command) = match &actions[0] {
        Action::FanOut { members, command } => (members.clone(), *command),
        _ => panic!("expected a fan-out"),
    };
    assert_eq!(members, vec!["a".to_owned(), "b".to_owned()]);
    assert_eq!(command, LightCommand::Power(PowerState::Off));

    // The host re-enters the registry once per member, in order.
    for member in &members {
        app.set_state(member, PowerState::Off).unwrap();
    }
    let member_actions = app.take_actions();
    assert_eq!(member_actions.len(), 2);
    match &member_actions[0] {
        Action::Call { id, command } => {
            assert_eq!(id, "a");
            assert_eq!(*command, LightCommand::Power(PowerState::Off));
        },
        _ => panic!("expected a backend call"),
    }
    match &member_actions[1] {
        Action::Call { id, command } => {
            assert_eq!(id, "b");
            assert_eq!(*command, LightCommand::Power(PowerState::Off));
        },
        _ => panic!("expected a backend call"),
    }
    assert!(!app.lights()[0].is_on());
    assert!(!app.lights()[1].is_on());
}

#[test]
fn group_is_enumerated_as_a_light() {
    let mut app = App::new();
    app.push_light("a".to_owned(), "A".to_owned());
    let gid = "g1".to_owned();
    app.make_group(&gid, vec!["a".to_owned()]);
    let lights = app.lights();
    assert_eq!(lights.len(), 2);
    assert_eq!(lights[1].id(), "Group g1");
    assert_eq!(lights[1].name().as_str(), "Group g1");
    assert_eq!(lights[1].group_members().unwrap(), &vec!["a".to_owned()]);
}

#[test]
fn group_membership_can_grow_and_shrink() {
    let mut app = App::new();
    app.push_light("a".to_owned(), "A".to_owned());
    app.push_light("b".to_owned(), "B".to_owned());
    let gid = "g1".to_owned();
    app.make_group(&gid, vec!["a".to_owned()]);
    app.add_light_to_group("b".to_owned(), &gid).unwrap();
    assert_eq!(
        app.lights()[2].group_members().unwrap(),
        &vec!["a".to_owned(), "b".to_owned()]
    );
    let a = "a".to_owned();
    app.remove_light_from_group(&a, &gid).unwrap();
    assert_eq!(app.lights()[2].group_members().unwrap(), &vec!["b".to_owned()]);
    let missing = "zzz".to_owned();
    assert!(matches!(app.remove_light_from_group(&missing, &gid), Err(Error::Absent)));
    let no_group = "g9".to_owned();
    assert!(matches!(app.add_light_to_group("a".to_owned(), &no_group), Err(Error::Absent)));
}

#[test]
fn fan_out_result_is_success_only_if_every_member_succeeded() {
    assert!(fan_out_result(&vec![None, None]).is_ok());
    assert!(fan_out_result(&vec![]).is_ok());
    let r = fan_out_result(&vec![None, Some("socket closed".to_owned()), Some("later".to_owned())]);
    match r {
        Err(Error::Light(msg)) => assert_eq!(msg, "socket closed"),
        _ => panic!("expected the first failure"),
    }
    assert_eq!(
        fan_out_result(&vec![Some("boom".to_owned())]).unwrap_err().describe(),
        "light error: boom"
    );
}

#[test]
fn rest_requests_translate_to_their_wire_forms() {
    assert!(matches!(Enumerate.into_request(), Request::Enumerate));
    assert!(matches!(CheckAuth.into_request(), Request::CheckAuth));
    match (MakeGroup { lights: vec!["a".to_owned()], id: "g1".to_owned() }).into_request() {
        Request::MakeGroup { lights, id } => {
            assert_eq!(lights, vec!["a".to_owned()]);
            assert_eq!(id, "g1");
        },
        _ => panic!("expected MakeGroup"),
    }
    match (AddLightToGroup { light: "a".to_owned(), group: "g1".to_owned() }).into_request() {
        Request::AddLightToGroup { light, group } => {
            assert_eq!(light, "a");
            assert_eq!(group, "g1");
        },
        _ => panic!("expected AddLightToGroup"),
    }
    match (RemoveLightFromGroup { light: "a".to_owned(), group: "g1".to_owned() }).into_request() {
        Request::RemoveLightFromGroup { light, group } => {
            assert_eq!(light, "a");
            assert_eq!(group, "g1");
        },
        _ => panic!("expected RemoveLightFromGroup"),
    }
}

#[test]
fn enumerate_response_reports_states_and_groups() {
    let mut app = App::new();
    app.push_light("a".to_owned(), "A".to_owned());
    app.push_light("b".to_owned(), "B".to_owned());
    let gid = "g1".to_owned();
    app.make_group(&gid, vec!["a".to_owned(), "b".to_owned()]);
    let a = "a".to_owned();
    app.set_state(&a, PowerState::On).unwrap();
    app.set_color(&a, Color::Rgb { r: 1, g: 2, b: 3 }).unwrap();
    let b = "b".to_owned();
    app.set_state(&b, PowerState::On).unwrap();

    let response = lights::api::enumerate_response(&app);
    assert_eq!(response.lights.len(), 3);
    assert_eq!(response.lights[0].id, "a");
    assert_eq!(response.lights[0].state, State::Rgb { red: 1, green: 2, blue: 3 });
    assert_eq!(response.lights[1].id, "b");
    assert_eq!(response.lights[1].state, State::White { temp: 6500 });
    assert_eq!(response.lights[2].id, "Group g1");
    assert_eq!(response.lights[2].state, State::Off);
    assert_eq!(response.groups.len(), 1);
    assert_eq!(response.groups[0].name, "Group g1");
    assert_eq!(response.groups[0].lights, vec!["a".to_owned(), "b".to_owned()]);
}
