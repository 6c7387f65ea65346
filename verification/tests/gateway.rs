use standaertha::gateway::config::{
    default_button_name, default_buttons_config, default_ha_config, default_ha_enabled,
    default_ha_prefix, default_homie_config, default_homie_device_id, default_homie_enabled,
    default_homie_name, default_light_name, default_lights_config, default_mqtt_client_id,
    default_mqtt_port, default_serial_baud_rate, default_serial_timeout, default_webthing_enabled,
    ButtonConfig, Config, LightConfig, MqttConfig, SerialConfig, WebThingConfig,
};
use standaertha::gateway::mqtt;
use standaertha::gateway::mqtt::{homeassistant, homie, MqttAction, Notification, Publish, QoS};
use standaertha::gateway::webthing::{button_heard, ButtonState, PressedEvent};
use standaertha::gateway::{
    append_crc16, command_frame, refresh_due, slip_decode, slip_encode, verify_crc16, CRCError,
    Command, CommandType, Event, EventType, Package, PackageError, PackageInputStream, SlipError,
    MAX_COMMANDS, SLIP_END, SLIP_ESC, SLIP_ESC_END, SLIP_ESC_ESC,
};

#[test]
fn lib_test_encode() {
    let buf = &[SLIP_END, SLIP_ESC, 0x12, 0x33];
    let res = slip_encode(buf);
    assert_eq!(
        res,
        &[
            SLIP_END,
            SLIP_ESC,
            SLIP_ESC_END,
            SLIP_ESC,
            SLIP_ESC_ESC,
            0x12,
            0x33,
            SLIP_END
        ]
    );
}

#[test]
fn lib_test_decode() {
    let buf = &[
        SLIP_END,
        SLIP_ESC,
        SLIP_ESC_END,
        SLIP_ESC,
        SLIP_ESC_ESC,
        0x12,
        0x33,
        SLIP_END,
    ];
    let res = slip_decode(buf).unwrap();
    assert_eq!(res, &[SLIP_END, SLIP_ESC, 0x12, 0x33]);
}

#[test]
fn test_encode() {
    let buf = &[SLIP_END, SLIP_ESC, 0x12, 0x33];
    let res = slip_encode(buf);
    assert_eq!(
        res,
        &[
            SLIP_END,
            SLIP_ESC,
            SLIP_ESC_END,
            SLIP_ESC,
            SLIP_ESC_ESC,
            0x12,
            0x33,
            SLIP_END
        ]
    );
}

#[test]
fn test_decode() {
    let buf = &[
        SLIP_END,
        SLIP_ESC,
        SLIP_ESC_END,
        SLIP_ESC,
        SLIP_ESC_ESC,
        0x12,
        0x33,
        SLIP_END,
    ];
    let res = slip_decode(buf).unwrap();
    assert_eq!(res, &[SLIP_END, SLIP_ESC, 0x12, 0x33]);
}

#[test]
fn test_crc() {
    let buf = vec![1, 2, 3, 4, 5];
    let buf = append_crc16(buf);
    assert!(verify_crc16(&buf));
}

#[test]
fn test_iter() {
    let buf = &[
        1, 2, 3, SLIP_END, 12, 0xC1, 0x8C, SLIP_END, 7, 9, SLIP_END, 88, 19, 0xA5, 0x44,
        SLIP_END,
    ];
    let mut stream = PackageInputStream::new();
    let mut found = packages(&mut stream, buf).into_iter();
    let pkg1 = found.next().unwrap().unwrap();
    assert_eq!(pkg1, vec![12]);
    let pkg2 = found.next().unwrap().unwrap();
    assert_eq!(pkg2, vec![88, 19]);
    let pkg3 = found.next();
    assert!(pkg3.is_none());
}

#[test]
fn lib_test_crc() {
    let buf = vec![1, 2, 3, 4, 5];
    let buf = append_crc16(buf);
    assert!(verify_crc16(&buf));
}

fn packages(stream: &mut PackageInputStream, bytes: &[u8]) -> Vec<Result<Vec<u8>, PackageError>> {
    let mut found = vec![];
    for b in bytes {
        if let Some(package) = stream.push_byte(*b) {
            found.push(package);
        }
    }
    found
}

#[test]
fn lib_test_iter() {
    let buf = &[
        1, 2, 3, SLIP_END, 12, 0xC1, 0x8C, SLIP_END, 7, 9, SLIP_END, 88, 19, 0xA5, 0x44,
        SLIP_END,
    ];
    let mut stream = PackageInputStream::new();
    let mut found = packages(&mut stream, buf).into_iter();
    let pkg1 = found.next().unwrap().unwrap();
    assert_eq!(pkg1, vec![12]);
    let pkg2 = found.next().unwrap().unwrap();
    assert_eq!(pkg2, vec![88, 19]);
    let pkg3 = found.next();
    assert!(pkg3.is_none());
}

#[test]
fn test_crc_known_values() {
    // The checksum of "123456789" is 0x31C3.
    assert_eq!(append_crc16(b"123456789".to_vec())[9..], [0x31, 0xC3]);
    assert_eq!(append_crc16(vec![]), vec![0, 0]);
    assert!(verify_crc16(&[0, 0]));
    assert!(!verify_crc16(&[1, 2, 3, 4, 5, 0, 0]));
    let mut buf = append_crc16(vec![9, 8, 7]);
    buf[1] ^= 0x10;
    assert!(!verify_crc16(&buf));
}

#[test]
fn test_slip_errors() {
    assert_eq!(slip_decode(&[]), Err(SlipError));
    assert_eq!(slip_decode(&[SLIP_END]), Err(SlipError));
    assert_eq!(slip_decode(&[1, SLIP_END]), Err(SlipError));
    assert_eq!(slip_decode(&[SLIP_END, 1]), Err(SlipError));
    assert_eq!(slip_decode(&[SLIP_END, SLIP_END, SLIP_END]), Err(SlipError));
    assert_eq!(slip_decode(&[SLIP_END, SLIP_ESC, 1, SLIP_END]), Err(SlipError));
    assert_eq!(slip_decode(&[SLIP_END, SLIP_END]), Ok(vec![]));
    // An escape right before the end is passed over.
    assert_eq!(slip_decode(&[SLIP_END, 5, SLIP_ESC, SLIP_END]), Ok(vec![5]));
}

#[test]
fn test_slip_round_trip() {
    let all: Vec<u8> = (0..=255u8).collect();
    assert_eq!(slip_decode(&slip_encode(&all)), Ok(all));
    assert_eq!(slip_encode(&[]), vec![SLIP_END, SLIP_END]);
}

#[test]
fn test_stream_errors() {
    let mut stream = PackageInputStream::new();
    // A frame with a wrong checksum, then an empty frame, then a good one.
    let mut bytes = vec![SLIP_END, 1, 2, 3, SLIP_END, SLIP_END, SLIP_END];
    bytes.extend(slip_encode(&append_crc16(vec![SLIP_END, 4])));
    let found = packages(&mut stream, &bytes);
    assert_eq!(
        found,
        vec![
            Err(PackageError::Crc(CRCError)),
            Err(PackageError::Crc(CRCError)),
            Ok(vec![SLIP_END, 4])
        ]
    );
    // A frame that cannot be read stays in the stream.
    let mut stream = PackageInputStream::new();
    let found = packages(&mut stream, &[SLIP_END, SLIP_ESC, 0, SLIP_END, 1, SLIP_END]);
    assert_eq!(
        found,
        vec![Err(PackageError::Slip(SlipError)), Err(PackageError::Slip(SlipError))]
    );
}

#[test]
fn test_gateway_event() {
    let event = Event::new(EventType::PressStart, 5);
    assert_eq!(event.raw(), 0x45);
    assert!(event.valid());
    assert_eq!(event.event_type(), EventType::PressStart);
    assert_eq!(event.button(), 5);
    let event = Event::new(EventType::PressEnd, 0x3F);
    assert_eq!(event.raw(), 0xDF);
    assert_eq!(event.event_type(), EventType::PressEnd);
    assert_eq!(event.button(), 31);
    let event = Event::frow_raw(0x05);
    assert!(!event.valid());
    assert_eq!(event.raw(), 0x05);
    assert_eq!(EventType::PressStart.value(), 0x00);
    assert_eq!(EventType::PressEnd.value(), 0x80);
}

#[test]
fn test_gateway_command() {
    let command = Command::new(CommandType::On, 3);
    assert_eq!(command.raw(), 0xC3);
    assert_eq!(command.command_type(), CommandType::On);
    assert_eq!(command.output(), 3);
    assert_eq!(Command::new(CommandType::Refresh, 0).raw(), 0x20);
    assert_eq!(Command::new(CommandType::Toggle, 33).raw(), 0x41);
    assert_eq!(Command::new(CommandType::Off, 31).raw(), 0x9F);
    assert_eq!(Command::new(CommandType::Nothing, 1).raw(), 0x01);
    assert_eq!(Command::from_raw(0x80).command_type(), CommandType::Off);
    assert_eq!(Command::from_raw(0x60).try_command_type(), None);
    assert_eq!(Command::from_raw(0xA0).try_command_type(), None);
    assert_eq!(Command::from_raw(0xE0).try_command_type(), None);
    assert_eq!(Command::from_raw(0x1F).try_command_type(), Some(CommandType::Nothing));
    assert_eq!(CommandType::On.value(), 0xC0);
}

#[test]
fn test_package() {
    let mut buf = vec![0u8; 36];
    buf[0] = 0x40;
    buf[31] = 0xDF;
    buf[32] = 0x12;
    buf[33] = 0x34;
    buf[34] = 0x56;
    buf[35] = 0x78;
    let package = Package::from_buf(&buf);
    assert_eq!(package.state, 0x12345678);
    assert_eq!(package.events.len(), 32);
    assert_eq!(package.events[0].raw(), 0x40);
    assert_eq!(package.events[31].button(), 31);
    assert!(Package::try_from_buf(&buf).is_some());
    assert!(Package::try_from_buf(&buf[..35]).is_none());
}

fn config() -> Config {
    Config {
        mqtt: MqttConfig {
            client_id: default_mqtt_client_id(),
            host: "localhost".to_string(),
            port: default_mqtt_port(),
            homeassistant: default_ha_config(),
            homie: default_homie_config(),
        },
        webthing: WebThingConfig { enabled: default_webthing_enabled(), base_uri: String::new() },
        serial: SerialConfig {
            port: "/dev/ttyUSB0".to_string(),
            baud_rate: default_serial_baud_rate(),
            timeout: default_serial_timeout(),
        },
        lights: vec![
            ("kitchen".to_string(), LightConfig { index: 1, name: "Kitchen".to_string() }),
            ("hall".to_string(), LightConfig { index: 2, name: default_light_name() }),
        ],
        buttons: vec![
            ("door".to_string(), ButtonConfig { index: 0, name: default_button_name() }),
            ("bed".to_string(), ButtonConfig { index: 3, name: "Bedroom".to_string() }),
        ],
    }
}

#[test]
fn test_config_names() {
    let config = config();
    assert_eq!(config.light_name("kitchen"), Some("Kitchen"));
    assert_eq!(config.light_name("hall"), Some("hall"));
    assert_eq!(config.light_name("attic"), None);
    assert_eq!(config.button_name("door"), Some("door"));
    assert_eq!(config.button_name("bed"), Some("Bedroom"));
    assert_eq!(config.button_name("kitchen"), None);
}

#[test]
fn test_config_defaults() {
    assert!(!default_ha_enabled());
    assert_eq!(default_ha_prefix(), "homeassistant");
    assert!(!default_homie_enabled());
    assert_eq!(default_homie_device_id(), "standaertha-gateway");
    assert_eq!(default_homie_name(), "Standaert Home Automation");
    assert_eq!(default_mqtt_client_id(), "standaertha-gateway");
    assert_eq!(default_mqtt_port(), 1883);
    assert_eq!(default_serial_baud_rate(), 9600);
    assert_eq!(default_serial_timeout(), 1000);
    assert!(!default_webthing_enabled());
    assert!(default_lights_config().is_empty());
    assert!(default_buttons_config().is_empty());
    assert_eq!(default_light_name(), "");
    assert_eq!(default_button_name(), "");
    let ha = default_ha_config();
    assert!(!ha.enabled);
    assert_eq!(ha.prefix, "homeassistant");
    let homie = default_homie_config();
    assert!(!homie.enabled);
    assert_eq!(homie.device_id, "standaertha-gateway");
    assert_eq!(homie.name, "Standaert Home Automation");
}

fn services_config() -> Config {
    let mut config = config();
    config.mqtt.homeassistant.prefix = "ha".to_string();
    config.mqtt.homie.device_id = "dev".to_string();
    config.mqtt.homie.name = "House".to_string();
    config
}

fn package(state: u32, events: &[(usize, u8)]) -> Package {
    let mut buf = vec![0u8; 36];
    for (place, raw) in events {
        buf[*place] = *raw;
    }
    buf[32..].copy_from_slice(&state.to_be_bytes());
    Package::from_buf(&buf)
}

fn publish(topic: &str, qos: QoS, retain: bool, payload: &str) -> Publish {
    Publish { topic: topic.to_string(), qos, retain, payload: payload.to_string() }
}

#[test]
fn test_homeassistant_package() {
    let config = services_config();
    // Light 1 is on. Button 0 is pushed, button 3 let go; an event of a
    // button that is not configured and one that is not valid tell nothing.
    let package = package(0b10, &[(0, 0x40), (1, 0xC3), (2, 0x45), (3, 0x03)]);
    assert_eq!(
        homeassistant::handle_package(&config, &package),
        vec![
            publish("ha/switch/kitchen", QoS::AtMostOnce, false, "true"),
            publish("ha/switch/hall", QoS::AtMostOnce, false, "false"),
            publish("ha/binary_sensor/door", QoS::AtMostOnce, false, "true"),
            publish("ha/binary_sensor/bed", QoS::AtMostOnce, false, "false"),
        ]
    );
}

#[test]
fn test_homie_package() {
    let mut config = services_config();
    config.lights.push(("far".to_string(), LightConfig { index: 40, name: String::new() }));
    let package = package(0xFFFF_FFFF, &[(5, 0xC0)]);
    assert_eq!(
        homie::handle_package(&config, &package),
        vec![
            publish("homie/dev/kitchen/power", QoS::AtLeastOnce, true, "true"),
            publish("homie/dev/hall/power", QoS::AtLeastOnce, true, "true"),
            // A light that is wired to no output is never on.
            publish("homie/dev/far/power", QoS::AtLeastOnce, true, "false"),
            publish("homie/dev/door/pressed", QoS::AtMostOnce, false, "false"),
        ]
    );
}

fn heard(topic: &str, payload: &[u8]) -> Notification {
    Notification { topic_name: topic.to_string(), payload: payload.to_vec() }
}

#[test]
fn test_notifications() {
    let config = services_config();
    let raw = |command: Option<Command>| command.map(|c| c.raw());
    let ha = |topic: &str, payload: &[u8]| {
        raw(homeassistant::handle_notification(&config, &heard(topic, payload)))
    };
    assert_eq!(ha("ha/switch/kitchen/set", b"true"), Some(0xC1));
    assert_eq!(ha("ha/switch/hall/set", b"false"), Some(0x82));
    assert_eq!(ha("ha/switch/attic/set", b"true"), None);
    assert_eq!(ha("ha/switch/kitchen/set", b"on"), None);
    assert_eq!(ha("ha/switch/kitchen", b"true"), None);
    assert_eq!(ha("ha/switch/kit/chen/set", b"true"), None);
    // The pattern is searched for anywhere in the topic.
    assert_eq!(ha("x/ha/switch/kitchen/set/y", b"true"), Some(0xC1));
    let homie = |topic: &str, payload: &[u8]| {
        raw(homie::handle_notification(&config, &heard(topic, payload)))
    };
    assert_eq!(homie("homie/dev/kitchen/power/set", b"true"), Some(0xC1));
    assert_eq!(homie("homie/dev/hall/power/set", b"false"), Some(0x82));
    assert_eq!(homie("homie/other/hall/power/set", b"false"), None);
    assert_eq!(homie("homie/dev/hall/power", b"false"), None);
    // A prefix that is no pattern asks for nothing.
    let mut broken = services_config();
    broken.mqtt.homeassistant.prefix = "(".to_string();
    assert_eq!(
        raw(homeassistant::handle_notification(&broken, &heard("(/switch/hall/set", b"true"))),
        None
    );
}

#[test]
fn test_homeassistant_discovery() {
    let config = services_config();
    let button = homeassistant::button_discovery(&config, 0);
    assert_eq!(button.config_topic, "ha/binary_sensor/door/config");
    assert_eq!(button.state_topic, "ha/binary_sensor/door");
    assert_eq!(button.name, "door");
    assert_eq!(button.command_topic, None);
    assert_eq!(homeassistant::button_discovery(&config, 1).name, "Bedroom");
    let light = homeassistant::light_discovery(&config, 0);
    assert_eq!(light.config_topic, "ha/switch/kitchen/config");
    assert_eq!(light.state_topic, "ha/switch/kitchen");
    assert_eq!(light.command_topic, Some("ha/switch/kitchen/set".to_string()));
    assert_eq!(light.name, "Kitchen");
    assert_eq!(homeassistant::light_discovery(&config, 1).name, "hall");
}

#[test]
fn test_homie_init() {
    let config = services_config();
    let said = |topic: &str, payload: &str| {
        MqttAction::Publish(publish(topic, QoS::AtLeastOnce, true, payload))
    };
    let actions = homie::init(&config);
    assert_eq!(actions.len(), 4 + 2 * 7 + 2 * 8 + 1);
    assert_eq!(
        actions[..5],
        [
            said("homie/dev/$state", "init"),
            said("homie/dev/$homie", "3.0.1"),
            said("homie/dev/$name", "House"),
            said("homie/dev/$nodes", "door,bed,kitchen,hall"),
            said("homie/dev/$nodes/door/$name", "door"),
        ]
    );
    assert_eq!(
        actions[11..18],
        [
            said("homie/dev/$nodes/bed/$name", "Bedroom"),
            said("homie/dev/$nodes/bed/$type", "Push button"),
            said("homie/dev/$nodes/bed/$properties", "pressed"),
            said("homie/dev/$nodes/bed/pressed/$name", "Pressed"),
            said("homie/dev/$nodes/bed/pressed/$datatype", "boolean"),
            said("homie/dev/$nodes/bed/pressed/$settable", "false"),
            said("homie/dev/$nodes/bed/pressed/$retained", "false"),
        ]
    );
    assert_eq!(
        actions[18..26],
        [
            said("homie/dev/$nodes/kitchen/$name", "Kitchen"),
            said("homie/dev/$nodes/kitchen/$type", "Light"),
            said("homie/dev/$nodes/kitchen/$properties", "power"),
            said("homie/dev/$nodes/kitchen/power/$name", "Power"),
            said("homie/dev/$nodes/kitchen/power/$datatype", "boolean"),
            said("homie/dev/$nodes/kitchen/power/$settable", "true"),
            said("homie/dev/$nodes/kitchen/power/$retained", "true"),
            MqttAction::Subscribe {
                topic: "homie/dev/$nodes/kitchen/power/set".to_string(),
                qos: QoS::AtLeastOnce
            },
        ]
    );
    assert_eq!(actions.last(), Some(&said("homie/dev/$state", "ready")));
    assert_eq!(
        homie::last_will(&config),
        publish("homie/dev/$state", QoS::AtLeastOnce, true, "lost")
    );
    assert_eq!(
        homie::do_disconnect(&config),
        publish("homie/dev/$state", QoS::AtLeastOnce, true, "disconnected")
    );
    // Without buttons the nodes are the lights; without either there is none.
    let mut config = services_config();
    config.buttons.clear();
    assert_eq!(homie::init(&config)[3], said("homie/dev/$nodes", "kitchen,hall"));
    config.lights.clear();
    assert_eq!(homie::init(&config)[3], said("homie/dev/$nodes", ""));
    assert_eq!(homie::init(&config).len(), 5);
}

#[test]
fn test_gateway_decisions() {
    assert!(!mqtt::enabled(&services_config()));
    let mut config = services_config();
    config.mqtt.homie.enabled = true;
    assert!(mqtt::enabled(&config));
    assert!(!refresh_due(None));
    assert!(!refresh_due(Some(10_000)));
    assert!(refresh_due(Some(10_001)));
    assert_eq!(MAX_COMMANDS, 64);
    let commands = vec![Command::new(CommandType::Refresh, 0), Command::new(CommandType::On, 0)];
    assert_eq!(command_frame(&commands), slip_encode(&append_crc16(vec![0x20, 0xC0])));
    assert_eq!(slip_decode(&command_frame(&commands)), Ok(append_crc16(vec![0x20, 0xC0])));
}

#[test]
fn test_button_press() {
    let pushed_at = |at| Some(ButtonState { at, pushed: true });
    assert_eq!(button_heard(None, 100, true), (false, ButtonState { at: 100, pushed: true }));
    assert_eq!(button_heard(None, 100, false).0, false);
    assert_eq!(
        button_heard(pushed_at(100), 599, false),
        (true, ButtonState { at: 599, pushed: false })
    );
    assert_eq!(button_heard(pushed_at(100), 600, false).0, false);
    assert_eq!(button_heard(pushed_at(100), 100, false).0, true);
    assert_eq!(button_heard(pushed_at(100), 200, true).0, false);
    assert_eq!(button_heard(Some(ButtonState { at: 100, pushed: false }), 200, false).0, false);
    // A clock that went back tells no press.
    assert_eq!(button_heard(pushed_at(100), 50, false).0, false);
    let event = PressedEvent::new();
    assert_eq!(event.get_name(), "pressed");
}

#[test]
fn test_texts() {
    assert_eq!(
        Event::new(EventType::PressStart, 3).to_string(),
        "Event( PressStart( button: 3, raw: 0x43 ) )"
    );
    assert_eq!(
        Event::new(EventType::PressEnd, 31).to_string(),
        "Event( PressEnd( button: 31, raw: 0xdf ) )"
    );
    assert_eq!(Event::frow_raw(0x05).to_string(), "Event( Invalid( raw: 0x05 ) )");
    assert_eq!(Event::frow_raw(0xBA).to_string(), "Event( Invalid( raw: 0xba ) )");
    let told = package(0x8000_0005, &[(0, 0x41), (1, 0x02), (7, 0xC2)]);
    assert_eq!(
        told.to_string(),
        "Package( state: 10000000000000000000000000000101, events: [ \
         Event( PressStart( button: 1, raw: 0x41 ) ), \
         Event( PressEnd( button: 2, raw: 0xc2 ) ) ] )"
    );
    assert_eq!(
        package(0, &[]).to_string(),
        "Package( state: 00000000000000000000000000000000, events: [  ] )"
    );
}
