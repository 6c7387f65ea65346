//! The gateway as a Homie device.

use crate::gateway::config::{display_name, ButtonConfig, Config, LightConfig};
use crate::gateway::mqtt::{
    command_of_notification, notification_command, package_published, package_publishes,
    publish_views, MqttAction, Notification, Publish, PublishView, QoS, Scheme,
};
use crate::gateway::{Command, Package};
use vstd::prelude::*;
use vstd::string::StringExecFns;

verus! {

/// The version of the Homie convention that the gateway follows.
pub const HOMIE_VERSION: &'static str = "3.0.1";

/// What is asked of the MQTT client as specifications see it.
pub enum ActionView {
    Publish(PublishView),
    Subscribe { topic: Seq<char>, qos: QoS },
}

impl View for MqttAction {
    type V = ActionView;

    open spec fn view(&self) -> ActionView {
        match self {
            MqttAction::Publish(publish) => ActionView::Publish(publish@),
            MqttAction::Subscribe { topic, qos } => ActionView::Subscribe {
                topic: topic@,
                qos: *qos,
            },
        }
    }
}

/// Actions as specifications see them.
pub open spec fn action_views(actions: Seq<MqttAction>) -> Seq<ActionView> {
    Seq::new(actions.len(), |i: int| actions[i]@)
}

/// The topic under which the device stands.
pub open spec fn device_topic(config: Config) -> Seq<char> {
    "homie/"@ + config.mqtt.homie.device_id@
}

/// The topics of Homie: a light's power is published, retained, under the
/// device, the light's identifier and `power`; a button's state under the
/// device, the button's identifier and `pressed`.
pub open spec fn is_scheme(scheme: Scheme, config: Config) -> bool {
    &&& scheme.light_head@ == device_topic(config) + "/"@
    &&& scheme.light_tail@ == "/power"@
    &&& scheme.light_qos == QoS::AtLeastOnce
    &&& scheme.light_retain
    &&& scheme.button_head@ == device_topic(config) + "/"@
    &&& scheme.button_tail@ == "/pressed"@
}

/// The pattern of the topics on which lights are switched.
pub open spec fn set_pattern(config: Config) -> Seq<char> {
    device_topic(config) + "/([^/]+)/power/set"@
}

/// A retained message that is surely delivered.
pub open spec fn retained(topic: Seq<char>, payload: Seq<char>) -> ActionView {
    ActionView::Publish(PublishView { topic, qos: QoS::AtLeastOnce, retain: true, payload })
}

/// What describes a node with one property: the node's name, type and
/// property, and the property's name, type, and whether it can be set and
/// is retained, which go together.
pub open spec fn node_described(
    prefix: Seq<char>,
    name: Seq<char>,
    kind: Seq<char>,
    property: Seq<char>,
    title: Seq<char>,
    settable: Seq<char>,
) -> Seq<ActionView> {
    let inner = prefix + "/"@ + property;
    seq![
        retained(prefix + "/$name"@, name),
        retained(prefix + "/$type"@, kind),
        retained(prefix + "/$properties"@, property),
        retained(inner + "/$name"@, title),
        retained(inner + "/$datatype"@, "boolean"@),
        retained(inner + "/$settable"@, settable),
        retained(inner + "/$retained"@, settable),
    ]
}

/// What describes a button.
pub open spec fn button_described(config: Config, id: Seq<char>, name: Seq<char>) -> Seq<
    ActionView,
> {
    node_described(
        device_topic(config) + "/$nodes/"@ + id,
        display_name(name, id),
        "Push button"@,
        "pressed"@,
        "Pressed"@,
        "false"@,
    )
}

/// What describes a light, and the subscription to its switch.
pub open spec fn light_described(config: Config, id: Seq<char>, name: Seq<char>) -> Seq<
    ActionView,
> {
    node_described(
        device_topic(config) + "/$nodes/"@ + id,
        display_name(name, id),
        "Light"@,
        "power"@,
        "Power"@,
        "true"@,
    ).push(
        ActionView::Subscribe {
            topic: device_topic(config) + "/$nodes/"@ + id + "/power/set"@,
            qos: QoS::AtLeastOnce,
        },
    )
}

/// What describes the buttons, in the order of the configuration.
pub open spec fn buttons_described(config: Config, buttons: Seq<(String, ButtonConfig)>) -> Seq<
    ActionView,
>
    decreases buttons.len(),
{
    if buttons.len() == 0 {
        Seq::empty()
    } else {
        buttons_described(config, buttons.drop_last()) + button_described(
            config,
            buttons.last().0@,
            buttons.last().1.name@,
        )
    }
}

/// What describes the lights, in the order of the configuration.
pub open spec fn lights_described(config: Config, lights: Seq<(String, LightConfig)>) -> Seq<
    ActionView,
>
    decreases lights.len(),
{
    if lights.len() == 0 {
        Seq::empty()
    } else {
        lights_described(config, lights.drop_last()) + light_described(
            config,
            lights.last().0@,
            lights.last().1.name@,
        )
    }
}

/// The identifiers of buttons, each after a comma but the first of all.
pub open spec fn button_ids_joined(buttons: Seq<(String, ButtonConfig)>) -> Seq<char>
    decreases buttons.len(),
{
    if buttons.len() == 0 {
        Seq::empty()
    } else if buttons.len() == 1 {
        buttons[0].0@
    } else {
        button_ids_joined(buttons.drop_last()) + ","@ + buttons.last().0@
    }
}

/// The identifiers of the buttons and then of the lights, separated by
/// commas.
pub open spec fn nodes_joined(
    buttons: Seq<(String, ButtonConfig)>,
    lights: Seq<(String, LightConfig)>,
) -> Seq<char>
    decreases lights.len(),
{
    if lights.len() == 0 {
        button_ids_joined(buttons)
    } else if lights.len() == 1 && buttons.len() == 0 {
        lights[0].0@
    } else {
        nodes_joined(buttons, lights.drop_last()) + ","@ + lights.last().0@
    }
}

/// What the gateway says when it starts: that it is starting, which
/// version it follows, its name and its nodes; then what describes every
/// button and every light; at last that it is ready.
pub open spec fn init_described(config: Config) -> Seq<ActionView> {
    seq![
        retained(device_topic(config) + "/$state"@, "init"@),
        retained(device_topic(config) + "/$homie"@, HOMIE_VERSION@),
        retained(device_topic(config) + "/$name"@, config.mqtt.homie.name@),
        retained(
            device_topic(config) + "/$nodes"@,
            nodes_joined(config.buttons@, config.lights@),
        ),
    ] + buttons_described(config, config.buttons@) + lights_described(config, config.lights@)
        + seq![retained(device_topic(config) + "/$state"@, "ready"@)]
}

/// The topics of Homie.
pub fn scheme(config: &Config) -> (r: Scheme)
    ensures
        is_scheme(r, *config),
{
    let mut head = String::from_str("homie/");
    head.append(config.mqtt.homie.device_id.as_str());
    head.append("/");
    Scheme {
        light_head: head.clone(),
        light_tail: String::from_str("/power"),
        light_qos: QoS::AtLeastOnce,
        light_retain: true,
        button_head: head,
        button_tail: String::from_str("/pressed"),
    }
}

/// The messages that tell of a package.
pub fn handle_package(config: &Config, package: &Package) -> (r: Vec<Publish>)
    ensures
        exists|s: Scheme| #[trigger]
            is_scheme(s, *config) && publish_views(r@) == package_published(s, *config, *package),
{
    let s = scheme(config);
    package_publishes(&s, config, package)
}

/// The command that a heard message asks for.
pub fn handle_notification(config: &Config, notification: &Notification) -> (r: Option<Command>)
    ensures
        match notification_command(
            set_pattern(*config),
            config.lights@,
            notification.topic_name@,
            notification.payload@,
        ) {
            Some(byte) => r matches Some(command) && command@ == byte,
            None => r is None,
        },
{
    let mut pattern = String::from_str("homie/");
    pattern.append(config.mqtt.homie.device_id.as_str());
    pattern.append("/([^/]+)/power/set");
    command_of_notification(pattern.as_str(), config, notification)
}

/// A retained message that is surely delivered.
fn retained_message(topic: String, payload: &str) -> (r: MqttAction)
    ensures
        r@ == retained(topic@, payload@),
{
    MqttAction::Publish(
        Publish {
            topic,
            qos: QoS::AtLeastOnce,
            retain: true,
            payload: String::from_str(payload),
        },
    )
}

/// A text followed by another.
fn joined(head: &String, tail: &str) -> (r: String)
    ensures
        r@ == head@ + tail@,
{
    let mut text = head.clone();
    text.append(tail);
    text
}

/// The message that says that the gateway has gone.
pub fn do_disconnect(config: &Config) -> (r: Publish)
    ensures
        ActionView::Publish(r@) == retained(device_topic(*config) + "/$state"@, "disconnected"@),
{
    let mut topic = String::from_str("homie/");
    topic.append(config.mqtt.homie.device_id.as_str());
    topic.append("/$state");
    Publish {
        topic,
        qos: QoS::AtLeastOnce,
        retain: true,
        payload: String::from_str("disconnected"),
    }
}

/// The message that the broker publishes when the gateway is lost.
pub fn last_will(config: &Config) -> (r: Publish)
    ensures
        ActionView::Publish(r@) == retained(device_topic(*config) + "/$state"@, "lost"@),
{
    let mut topic = String::from_str("homie/");
    topic.append(config.mqtt.homie.device_id.as_str());
    topic.append("/$state");
    Publish { topic, qos: QoS::AtLeastOnce, retain: true, payload: String::from_str("lost") }
}

/// Appends what describes a node with one property.
fn describe_node(
    actions: &mut Vec<MqttAction>,
    prefix: &String,
    name: &str,
    kind: &str,
    property: &str,
    title: &str,
    settable: &str,
)
    ensures
        action_views(final(actions)@) == action_views(old(actions)@) + node_described(
            prefix@,
            name@,
            kind@,
            property@,
            title@,
            settable@,
        ),
{
    let ghost before = action_views(actions@);
    let mut inner = joined(prefix, "/");
    inner.append(property);
    actions.push(retained_message(joined(prefix, "/$name"), name));
    actions.push(retained_message(joined(prefix, "/$type"), kind));
    actions.push(retained_message(joined(prefix, "/$properties"), property));
    actions.push(retained_message(joined(&inner, "/$name"), title));
    actions.push(retained_message(joined(&inner, "/$datatype"), "boolean"));
    actions.push(retained_message(joined(&inner, "/$settable"), settable));
    actions.push(retained_message(joined(&inner, "/$retained"), settable));
    assert(action_views(actions@) =~= before + node_described(
        prefix@,
        name@,
        kind@,
        property@,
        title@,
        settable@,
    ));
}

/// The identifiers of the buttons and then of the lights, separated by
/// commas.
fn join_nodes(config: &Config) -> (r: String)
    ensures
        r@ == nodes_joined(config.buttons@, config.lights@),
{
    let mut text = String::new();
    let n = config.buttons.len();
    let mut i: usize = 0;
    assert(config.buttons@.take(0) =~= Seq::<(String, ButtonConfig)>::empty());
    assert(text@ =~= button_ids_joined(config.buttons@.take(0)));
    while i < n
        invariant
            i <= n,
            n == config.buttons@.len(),
            text@ == button_ids_joined(config.buttons@.take(i as int)),
        decreases n - i,
    {
        let ghost part = config.buttons@.take(i as int + 1);
        proof {
            assert(part.drop_last() =~= config.buttons@.take(i as int));
            assert(part.last() == config.buttons@[i as int]);
        }
        if i > 0 {
            text.append(",");
        }
        text.append(config.buttons[i].0.as_str());
        assert(text@ =~= button_ids_joined(part));
        i += 1;
    }
    assert(config.buttons@.take(n as int) =~= config.buttons@);
    let m = config.lights.len();
    let mut j: usize = 0;
    assert(config.lights@.take(0) =~= Seq::<(String, LightConfig)>::empty());
    while j < m
        invariant
            j <= m,
            m == config.lights@.len(),
            n == config.buttons@.len(),
            text@ == nodes_joined(config.buttons@, config.lights@.take(j as int)),
        decreases m - j,
    {
        let ghost part = config.lights@.take(j as int + 1);
        proof {
            assert(part.drop_last() =~= config.lights@.take(j as int));
            assert(part.last() == config.lights@[j as int]);
        }
        if j > 0 || n > 0 {
            text.append(",");
        }
        text.append(config.lights[j].0.as_str());
        assert(text@ =~= nodes_joined(config.buttons@, part));
        j += 1;
    }
    assert(config.lights@.take(m as int) =~= config.lights@);
    text
}

/// What the gateway says and asks for when it starts.
pub fn init(config: &Config) -> (r: Vec<MqttAction>)
    ensures
        action_views(r@) == init_described(*config),
{
    let mut prefix = String::from_str("homie/");
    prefix.append(config.mqtt.homie.device_id.as_str());
    let mut actions: Vec<MqttAction> = Vec::new();
    actions.push(retained_message(joined(&prefix, "/$state"), "init"));
    actions.push(retained_message(joined(&prefix, "/$homie"), HOMIE_VERSION));
    actions.push(retained_message(joined(&prefix, "/$name"), config.mqtt.homie.name.as_str()));
    actions.push(retained_message(joined(&prefix, "/$nodes"), join_nodes(config).as_str()));
    let ghost head = action_views(actions@);
    assert(head =~= seq![
        retained(device_topic(*config) + "/$state"@, "init"@),
        retained(device_topic(*config) + "/$homie"@, HOMIE_VERSION@),
        retained(device_topic(*config) + "/$name"@, config.mqtt.homie.name@),
        retained(
            device_topic(*config) + "/$nodes"@,
            nodes_joined(config.buttons@, config.lights@),
        ),
    ]);
    let n = config.buttons.len();
    let mut i: usize = 0;
    assert(config.buttons@.take(0) =~= Seq::<(String, ButtonConfig)>::empty());
    assert(action_views(actions@) =~= head + buttons_described(*config, config.buttons@.take(0)));
    while i < n
        invariant
            i <= n,
            n == config.buttons@.len(),
            prefix@ == device_topic(*config),
            action_views(actions@) == head + buttons_described(
                *config,
                config.buttons@.take(i as int),
            ),
        decreases n - i,
    {
        let ghost before = action_views(actions@);
        let ghost part = config.buttons@.take(i as int + 1);
        proof {
            assert(part.drop_last() =~= config.buttons@.take(i as int));
            assert(part.last() == config.buttons@[i as int]);
        }
        let id = &config.buttons[i].0;
        let mut node_prefix = joined(&prefix, "/$nodes/");
        node_prefix.append(id.as_str());
        let name = if config.buttons[i].1.name.as_str().is_empty() {
            id.as_str()
        } else {
            config.buttons[i].1.name.as_str()
        };
        describe_node(&mut actions, &node_prefix, name, "Push button", "pressed", "Pressed", "false");
        assert(action_views(actions@) =~= head + buttons_described(*config, part));
        i += 1;
    }
    assert(config.buttons@.take(n as int) =~= config.buttons@);
    let ghost middle = action_views(actions@);
    let m = config.lights.len();
    let mut j: usize = 0;
    assert(config.lights@.take(0) =~= Seq::<(String, LightConfig)>::empty());
    assert(action_views(actions@) =~= middle + lights_described(*config, config.lights@.take(0)));
    while j < m
        invariant
            j <= m,
            m == config.lights@.len(),
            prefix@ == device_topic(*config),
            action_views(actions@) == middle + lights_described(
                *config,
                config.lights@.take(j as int),
            ),
        decreases m - j,
    {
        let ghost before = action_views(actions@);
        let ghost part = config.lights@.take(j as int + 1);
        proof {
            assert(part.drop_last() =~= config.lights@.take(j as int));
            assert(part.last() == config.lights@[j as int]);
        }
        let id = &config.lights[j].0;
        let mut node_prefix = joined(&prefix, "/$nodes/");
        node_prefix.append(id.as_str());
        let name = if config.lights[j].1.name.as_str().is_empty() {
            id.as_str()
        } else {
            config.lights[j].1.name.as_str()
        };
        describe_node(&mut actions, &node_prefix, name, "Light", "power", "Power", "true");
        let ghost described = action_views(actions@);
        actions.push(
            MqttAction::Subscribe {
                topic: joined(&node_prefix, "/power/set"),
                qos: QoS::AtLeastOnce,
            },
        );
        proof {
            let told = light_described(*config, id@, config.lights@[j as int].1.name@);
            let node = device_topic(*config) + "/$nodes/"@ + id@;
            assert(node_prefix@ =~= node);
            assert(node_prefix@ + "/power/set"@ =~= node + "/power/set"@);
            assert(name@ == display_name(config.lights@[j as int].1.name@, id@));
            assert(action_views(actions@) =~= described.push(
                ActionView::Subscribe { topic: node + "/power/set"@, qos: QoS::AtLeastOnce },
            ));
            assert(described == before + node_described(
                node,
                name@,
                "Light"@,
                "power"@,
                "Power"@,
                "true"@,
            ));
            assert(action_views(actions@) =~= before + told);
            assert(action_views(actions@) =~= middle + lights_described(*config, part));
        }
        j += 1;
    }
    assert(config.lights@.take(m as int) =~= config.lights@);
    let ghost body = action_views(actions@);
    actions.push(retained_message(joined(&prefix, "/$state"), "ready"));
    assert(action_views(actions@) =~= body + seq![
        retained(device_topic(*config) + "/$state"@, "ready"@),
    ]);
    actions
}

} // verus!
