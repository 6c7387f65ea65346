//! What the bridge says on MQTT: the names under which inputs and outputs
//! are announced, the topics, what is published of an update of the
//! controller, and which command a published message asks for.

use crate::controller::command::Command;
use crate::controller::event::Event;
use crate::controller::message::MessageBody;
use crate::shal::ast::{Entries, IODeclarations, PinID, PIN_COUNT};
use crate::shal::interpreter::bit_is_set;
use crate::shal::lexer::{is_number, to_chars};
use crate::shal::parser::number_value;
use crate::text::{decimal, push_decimal};
use vstd::prelude::*;
use vstd::string::StringExecFns;

verus! {

/// How many messages may wait for the MQTT client.
pub const BUF_SIZE: usize = 100;

/// What the handler needs to know: the discovery prefix, the declarations
/// of the program that runs on the controller, if one is known, and the
/// identifier of the MQTT client.
#[derive(Clone, Debug)]
pub struct MqttHandlerConfig {
    pub prefix: String,
    pub declarations: Option<IODeclarations>,
    pub client_id: String,
}

/// A message to publish.
#[derive(Clone, Debug, PartialEq, Eq)]
pub struct Publish {
    pub topic: String,
    pub payload: String,
}

/// What is announced of an input.
#[derive(Clone, Debug, PartialEq, Eq)]
pub struct BinarySensorSpec {
    pub unique_id: String,
    pub name: String,
    pub icon: String,
    pub state_topic: String,
}

/// What is announced of an output.
#[derive(Clone, Debug, PartialEq, Eq)]
pub struct LightSpec {
    pub unique_id: String,
    pub name: String,
    pub command_topic: String,
    pub state_topic: String,
}

/// The entry at `index` is the first with the pin.
pub open spec fn is_first_with_pin(entries: Entries, pin: PinID, index: int) -> bool {
    &&& 0 <= index < entries.len()
    &&& entries[index].1.pin == pin
    &&& forall|j: int| 0 <= j < index ==> (#[trigger] entries[j]).1.pin != pin
}

/// No entry has the pin.
pub open spec fn no_entry_with_pin(entries: Entries, pin: PinID) -> bool {
    forall|j: int| 0 <= j < entries.len() ==> (#[trigger] entries[j]).1.pin != pin
}

/// The name of a pin: the name that the first entry with the pin declares;
/// else the word for its kind, a blank and the pin's number.
pub open spec fn is_pin_name(name: Seq<char>, entries: Option<Entries>, kind: Seq<char>, pin: PinID)
    -> bool {
    let fallback = kind + seq![' '] + decimal(pin@ as nat);
    match entries {
        None => name == fallback,
        Some(entries) => if no_entry_with_pin(entries, pin) {
            name == fallback
        } else {
            exists|i: int| #[trigger]
                is_first_with_pin(entries, pin, i) && name == match entries[i].1.name {
                    Some(declared) => declared@,
                    None => fallback,
                }
        },
    }
}

/// The identifier of a pin: that of the first entry with the pin; else the
/// pin's number.
pub open spec fn is_pin_id(id: Seq<char>, entries: Option<Entries>, pin: PinID) -> bool {
    match entries {
        None => id == decimal(pin@ as nat),
        Some(entries) => if no_entry_with_pin(entries, pin) {
            id == decimal(pin@ as nat)
        } else {
            exists|i: int| #[trigger] is_first_with_pin(entries, pin, i) && id == entries[i].0
        },
    }
}

/// The topic of one input or output: the prefix, the kind, the client and
/// the number, separated by slashes, and an ending.
pub open spec fn topic_of(
    prefix: Seq<char>,
    kind: Seq<char>,
    client_id: Seq<char>,
    number: nat,
    ending: Seq<char>,
) -> Seq<char> {
    prefix + seq!['/'] + kind + seq!['/'] + client_id + seq!['/'] + decimal(number) + ending
}

/// The text `ON` or `OFF`.
pub open spec fn on_off(on: bool) -> Seq<char> {
    if on {
        "ON"@
    } else {
        "OFF"@
    }
}

/// A number as Rust reads it from a text: an optional plus sign and digits,
/// at least one, that stand for a number up to 255.
pub open spec fn parsed_u8(text: Seq<char>) -> Option<u8> {
    let digits = if text.len() > 0 && text[0] == '+' {
        text.skip(1)
    } else {
        text
    };
    if is_number(digits) && number_value(digits) <= 255 {
        Some(number_value(digits) as u8)
    } else {
        None
    }
}

/// The command that a message on a topic asks for: the topic is that of the
/// switch of one of the thirty-two lights of this client, and the payload
/// is `ON` or `OFF`.
pub open spec fn command_for(
    prefix: Seq<char>,
    client_id: Seq<char>,
    topic: Seq<char>,
    payload: Seq<u8>,
) -> Option<Command> {
    let head = prefix + "/light/"@ + client_id + seq!['/'];
    let tail = "/switch"@;
    if topic.len() >= head.len() + tail.len() && topic.take(head.len() as int) == head
        && topic.skip(topic.len() - tail.len()) == tail {
        match parsed_u8(topic.subrange(head.len() as int, topic.len() - tail.len())) {
            Some(id) => if id >= PIN_COUNT {
                None
            } else if payload == seq![0x4fu8, 0x4eu8] {
                Some(Command::On(id))
            } else if payload == seq![0x4fu8, 0x46u8, 0x46u8] {
                Some(Command::Off(id))
            } else {
                None
            },
            None => None,
        }
    } else {
        None
    }
}

/// Reads a number as Rust reads it from a text.
pub fn parse_u8(chars: &Vec<char>, start: usize, end: usize) -> (r: Option<u8>)
    requires
        start <= end <= chars@.len(),
    ensures
        r == parsed_u8(chars@.subrange(start as int, end as int)),
{
    let ghost text = chars@.subrange(start as int, end as int);
    let from = if start < end && chars[start] == '+' {
        start + 1
    } else {
        start
    };
    let ghost digits = chars@.subrange(from as int, end as int);
    proof {
        if from > start {
            assert(text[0] == '+');
            assert(digits =~= text.skip(1));
        } else {
            if text.len() > 0 {
                assert(text[0] == chars@[start as int]);
            }
            assert(digits =~= text);
        }
    }
    if from == end {
        return None;
    }
    let mut value: u16 = 0;
    let mut i: usize = from;
    assert(digits.take(0) =~= Seq::<char>::empty());
    while i < end
        invariant
            from <= i <= end <= chars@.len(),
            digits == chars@.subrange(from as int, end as int),
            text == chars@.subrange(start as int, end as int),
            digits == if text.len() > 0 && text[0] == '+' {
                text.skip(1)
            } else {
                text
            },
            is_number(digits.take(i - from)) || i == from,
            value <= 256,
            value == if number_value(digits.take(i - from)) <= 255 {
                number_value(digits.take(i - from))
            } else {
                256
            },
        decreases end - i,
    {
        let ghost part = digits.take(i - from + 1);
        let c = chars[i];
        proof {
            assert(part.drop_last() =~= digits.take(i - from));
            assert(part.last() == c);
            assert(digits[i - from] == c);
        }
        if !(c >= '0' && c <= '9') {
            assert(!is_number(digits));
            return None;
        }
        proof {
            assert forall|j: int| 0 <= j < part.len() implies crate::shal::ast::is_ascii_digit(
                #[trigger] part[j],
            ) by {
                if j < part.len() - 1 {
                    assert(part[j] == digits.take(i - from)[j]);
                }
            }
        }
        if value <= 255 {
            let digit: u16 = (c as u32 - '0' as u32) as u16;
            value = value * 10 + digit;
            if value > 255 {
                value = 256;
            }
        }
        i += 1;
    }
    assert(digits.take(end - from) =~= digits);
    if value > 255 {
        None
    } else {
        Some(value as u8)
    }
}

/// Tells whether `word` stands in `chars` at `start`.
fn stands_at(chars: &Vec<char>, start: usize, word: &Vec<char>) -> (r: bool)
    requires
        start + word@.len() <= chars@.len(),
    ensures
        r == (chars@.subrange(start as int, start + word@.len()) == word@),
{
    let n = word.len();
    let m = chars.len();
    let ghost part = chars@.subrange(start as int, start + n);
    let mut i: usize = 0;
    while i < n
        invariant
            i <= n,
            n == word@.len(),
            m == chars@.len(),
            start + n <= m,
            part == chars@.subrange(start as int, start + n),
            forall|j: int| 0 <= j < i ==> part[j] == word@[j],
        decreases n - i,
    {
        if chars[start + i] != word[i] {
            assert(part[i as int] != word@[i as int]);
            return false;
        }
        i += 1;
    }
    assert(part =~= word@);
    true
}

/// The first entry with a pin, if there is one.
fn find_pin(declarations: &crate::shal::ast::DeclarationMap, pin: PinID) -> (r: Option<usize>)
    ensures
        match r {
            Some(i) => is_first_with_pin(declarations@, pin, i as int),
            None => no_entry_with_pin(declarations@, pin),
        },
{
    let entries = declarations.entries();
    let n = entries.len();
    let mut i: usize = 0;
    while i < n
        invariant
            i <= n,
            n == entries@.len(),
            entries@.len() == declarations@.len(),
            forall|k: int|
                0 <= k < entries@.len() ==> (#[trigger] entries@[k]).0@ == declarations@[k].0
                    && entries@[k].1 == declarations@[k].1,
            forall|j: int| 0 <= j < i ==> (#[trigger] declarations@[j]).1.pin != pin,
        decreases n - i,
    {
        if entries[i].1.pin == pin {
            return Some(i);
        }
        i += 1;
    }
    None
}

/// The word for a kind, a blank and the number of a pin.
fn numbered(kind: &str, pin: PinID) -> (r: String)
    ensures
        r@ == kind@ + seq![' '] + decimal(pin@ as nat),
{
    let mut text = String::from_str(kind);
    proof {
        reveal_strlit(" ");
    }
    text.append(" ");
    assert(" "@ =~= seq![' ']);
    push_decimal(&mut text, pin.get() as u64);
    text
}

/// The name of a pin among declarations.
fn pin_name(declarations: Option<&crate::shal::ast::DeclarationMap>, kind: &str, pin: PinID) -> (r:
    String)
    ensures
        is_pin_name(
            r@,
            match declarations {
                Some(d) => Some(d@),
                None => None,
            },
            kind@,
            pin,
        ),
{
    if let Some(map) = declarations {
        if let Some(i) = find_pin(map, pin) {
            let entries = map.entries();
            if let Some(name) = &entries[i].1.name {
                return name.clone();
            }
        }
    }
    numbered(kind, pin)
}

/// The identifier of a pin among declarations.
fn pin_id(declarations: Option<&crate::shal::ast::DeclarationMap>, pin: PinID) -> (r: String)
    ensures
        is_pin_id(
            r@,
            match declarations {
                Some(d) => Some(d@),
                None => None,
            },
            pin,
        ),
{
    if let Some(map) = declarations {
        if let Some(i) = find_pin(map, pin) {
            let entries = map.entries();
            return entries[i].0.as_str().to_owned();
        }
    }
    pin.to_string()
}

impl MqttHandlerConfig {
    /// The declared inputs, if declarations are known.
    pub open spec fn inputs(&self) -> Option<Entries> {
        match self.declarations {
            Some(d) => Some(d.inputs@),
            None => None,
        }
    }

    /// The declared outputs, if declarations are known.
    pub open spec fn outputs(&self) -> Option<Entries> {
        match self.declarations {
            Some(d) => Some(d.outputs@),
            None => None,
        }
    }

    /// The name under which an input is announced.
    pub fn input_name(&self, pin: PinID) -> (r: String)
        ensures
            is_pin_name(r@, self.inputs(), "Input"@, pin),
    {
        match &self.declarations {
            Some(d) => pin_name(Some(&d.inputs), "Input", pin),
            None => pin_name(None, "Input", pin),
        }
    }

    /// The identifier of an input.
    pub fn input_id(&self, pin: PinID) -> (r: String)
        ensures
            is_pin_id(r@, self.inputs(), pin),
    {
        match &self.declarations {
            Some(d) => pin_id(Some(&d.inputs), pin),
            None => pin_id(None, pin),
        }
    }

    /// The identifier of an input that no other client shares: the client's
    /// identifier, `_input_` and the input's identifier.
    pub fn unique_input_id(&self, pin: PinID) -> (r: String)
        ensures
            exists|id: Seq<char>| #[trigger]
                is_pin_id(id, self.inputs(), pin) && r@ == self.client_id@ + "_input_"@ + id,
    {
        let input_id = self.input_id(pin);
        let mut text = self.client_id.clone();
        text.append("_input_");
        text.append(input_id.as_str());
        text
    }

    /// The name under which an output is announced.
    pub fn output_name(&self, pin: PinID) -> (r: String)
        ensures
            is_pin_name(r@, self.outputs(), "Output"@, pin),
    {
        match &self.declarations {
            Some(d) => pin_name(Some(&d.outputs), "Output", pin),
            None => pin_name(None, "Output", pin),
        }
    }

    /// The identifier of an output.
    pub fn output_id(&self, pin: PinID) -> (r: String)
        ensures
            is_pin_id(r@, self.outputs(), pin),
    {
        match &self.declarations {
            Some(d) => pin_id(Some(&d.outputs), pin),
            None => pin_id(None, pin),
        }
    }

    /// The identifier of an output that no other client shares: the
    /// client's identifier, `_output_` and the output's identifier.
    pub fn unique_output_id(&self, pin: PinID) -> (r: String)
        ensures
            exists|id: Seq<char>| #[trigger]
                is_pin_id(id, self.outputs(), pin) && r@ == self.client_id@ + "_output_"@ + id,
    {
        let output_id = self.output_id(pin);
        let mut text = self.client_id.clone();
        text.append("_output_");
        text.append(output_id.as_str());
        text
    }

    /// The topic of one input or output of this client.
    pub fn topic(&self, kind: &str, number: u8, ending: &str) -> (r: String)
        ensures
            r@ == topic_of(self.prefix@, kind@, self.client_id@, number as nat, ending@),
    {
        proof {
            reveal_strlit("/");
        }
        assert("/"@ =~= seq!['/']);
        let mut text = self.prefix.clone();
        text.append("/");
        text.append(kind);
        text.append("/");
        text.append(self.client_id.as_str());
        text.append("/");
        push_decimal(&mut text, number as u64);
        text.append(ending);
        text
    }

    /// The topic on which the switches of all lights of this client are
    /// heard.
    pub fn subscription(&self) -> (r: String)
        ensures
            r@ == self.prefix@ + "/light/"@ + self.client_id@ + "/+/switch"@,
    {
        let mut text = self.prefix.clone();
        text.append("/light/");
        text.append(self.client_id.as_str());
        text.append("/+/switch");
        text
    }

    /// The command that a published message asks for, if it asks for one.
    pub fn command_of(&self, topic: &str, payload: &[u8]) -> (r: Option<Command>)
        ensures
            r == command_for(self.prefix@, self.client_id@, topic@, payload@),
    {
        proof {
            reveal_strlit("/");
        }
        assert("/"@ =~= seq!['/']);
        let mut head_text = self.prefix.clone();
        head_text.append("/light/");
        head_text.append(self.client_id.as_str());
        head_text.append("/");
        let head = to_chars(head_text.as_str());
        let tail = to_chars("/switch");
        let chars = to_chars(topic);
        let n = chars.len();
        if n < head.len() || n - head.len() < tail.len() {
            return None;
        }
        assert(chars@.subrange(0, head@.len() as int) =~= chars@.take(head@.len() as int));
        assert(chars@.subrange(n - tail@.len(), n as int) =~= chars@.skip(n - tail@.len()));
        if !stands_at(&chars, 0, &head) || !stands_at(&chars, n - tail.len(), &tail) {
            return None;
        }
        match parse_u8(&chars, head.len(), n - tail.len()) {
            Some(id) => {
                if id >= PIN_COUNT {
                    None
                } else if payload.len() == 2 && payload[0] == 0x4f && payload[1] == 0x4e {
                    assert(payload@ =~= seq![0x4fu8, 0x4eu8]);
                    Some(Command::On(id))
                } else if payload.len() == 3 && payload[0] == 0x4f && payload[1] == 0x46
                    && payload[2] == 0x46 {
                    assert(payload@ =~= seq![0x4fu8, 0x46u8, 0x46u8]);
                    Some(Command::Off(id))
                } else {
                    None
                }
            },
            None => None,
        }
    }
}

/// What is published to announce an input: its description on the
/// discovery topic, and `OFF` on the state topic.
#[derive(Clone, Debug, PartialEq, Eq)]
pub struct SensorAnnouncement {
    pub discovery_topic: String,
    pub state_topic: String,
    pub spec: BinarySensorSpec,
}

/// What is published to announce an output: its description on the
/// discovery topic, and `OFF` on the state topic.
#[derive(Clone, Debug, PartialEq, Eq)]
pub struct LightAnnouncement {
    pub discovery_topic: String,
    pub state_topic: String,
    pub spec: LightSpec,
}

/// The message tells the state of the output `index`.
pub open spec fn is_light_state(
    publish: Publish,
    prefix: Seq<char>,
    client_id: Seq<char>,
    outputs: u32,
    index: int,
) -> bool {
    &&& publish.topic@ == topic_of(prefix, "light"@, client_id, index as nat, "/status"@)
    &&& publish.payload@ == on_off(bit_is_set(outputs, index as u8))
}

/// The message tells of an event: a falling edge means that the button is
/// pressed, a rising edge that it is not.
pub open spec fn is_event_state(
    publish: Publish,
    prefix: Seq<char>,
    client_id: Seq<char>,
    event: Event,
) -> bool {
    match event {
        Event::RisingEdge(input) => publish.topic@ == topic_of(
            prefix,
            "binary_sensor"@,
            client_id,
            input as nat,
            "/pressed"@,
        ) && publish.payload@ == on_off(false),
        Event::FallingEdge(input) => publish.topic@ == topic_of(
            prefix,
            "binary_sensor"@,
            client_id,
            input as nat,
            "/pressed"@,
        ) && publish.payload@ == on_off(true),
    }
}

impl MqttHandlerConfig {
    /// What is published of a message of the controller. Of an update: the
    /// state of each of the thirty-two outputs, then each event. Of any
    /// other message: nothing.
    pub fn handle_message_from_controller(&self, body: &MessageBody) -> (r: Vec<Publish>)
        ensures
            match *body {
                MessageBody::Update { outputs, events } => {
                    &&& r@.len() == 32 + events@.len()
                    &&& forall|i: int|
                        0 <= i < 32 ==> is_light_state(
                            #[trigger] r@[i],
                            self.prefix@,
                            self.client_id@,
                            outputs,
                            i,
                        )
                    &&& forall|j: int|
                        0 <= j < events@.len() ==> is_event_state(
                            #[trigger] r@[32 + j],
                            self.prefix@,
                            self.client_id@,
                            events@[j],
                        )
                },
                _ => r@.len() == 0,
            },
    {
        let mut result: Vec<Publish> = Vec::new();
        if let MessageBody::Update { outputs, events } = body {
            let mut i: u8 = 0;
            while i < 32
                invariant
                    i <= 32,
                    result@.len() == i,
                    forall|k: int|
                        0 <= k < i ==> is_light_state(
                            #[trigger] result@[k],
                            self.prefix@,
                            self.client_id@,
                            *outputs,
                            k,
                        ),
                decreases 32 - i,
            {
                let topic = self.topic("light", i, "/status");
                let on = (*outputs & (1u32 << i)) != 0;
                let payload = if on {
                    String::from_str("ON")
                } else {
                    String::from_str("OFF")
                };
                result.push(Publish { topic, payload });
                i += 1;
            }
            let n = events.len();
            let mut j: usize = 0;
            while j < n
                invariant
                    j <= n,
                    n == events@.len(),
                    result@.len() == 32 + j,
                    forall|k: int|
                        0 <= k < 32 ==> is_light_state(
                            #[trigger] result@[k],
                            self.prefix@,
                            self.client_id@,
                            *outputs,
                            k,
                        ),
                    forall|k: int|
                        0 <= k < j ==> is_event_state(
                            #[trigger] result@[32 + k],
                            self.prefix@,
                            self.client_id@,
                            events@[k],
                        ),
                decreases n - j,
            {
                let (input, pressed) = match events[j] {
                    Event::RisingEdge(input) => (input, false),
                    Event::FallingEdge(input) => (input, true),
                };
                let topic = self.topic("binary_sensor", input, "/pressed");
                let payload = if pressed {
                    String::from_str("ON")
                } else {
                    String::from_str("OFF")
                };
                result.push(Publish { topic, payload });
                j += 1;
            }
        }
        result
    }

    /// What is published to announce an input.
    pub fn announce_sensor(&self, pin: PinID) -> (r: SensorAnnouncement)
        ensures
            r.state_topic@ == topic_of(
                self.prefix@,
                "binary_sensor"@,
                self.client_id@,
                pin@ as nat,
                "/pressed"@,
            ),
            r.discovery_topic@ == topic_of(
                self.prefix@,
                "binary_sensor"@,
                self.client_id@,
                pin@ as nat,
                "/config"@,
            ),
            r.spec.state_topic@ == r.state_topic@,
            r.spec.icon@ == "mdi:light-switch-off"@,
            is_pin_name(r.spec.name@, self.inputs(), "Input"@, pin),
            exists|id: Seq<char>| #[trigger]
                is_pin_id(id, self.inputs(), pin) && r.spec.unique_id@ == self.client_id@
                    + "_input_"@ + id,
    {
        let number = pin.get();
        let state_topic = self.topic("binary_sensor", number, "/pressed");
        SensorAnnouncement {
            discovery_topic: self.topic("binary_sensor", number, "/config"),
            state_topic: state_topic.clone(),
            spec: BinarySensorSpec {
                unique_id: self.unique_input_id(pin),
                name: self.input_name(pin),
                icon: String::from_str("mdi:light-switch-off"),
                state_topic,
            },
        }
    }

    /// What is published to announce an output.
    pub fn announce_light(&self, pin: PinID) -> (r: LightAnnouncement)
        ensures
            r.state_topic@ == topic_of(
                self.prefix@,
                "light"@,
                self.client_id@,
                pin@ as nat,
                "/status"@,
            ),
            r.discovery_topic@ == topic_of(
                self.prefix@,
                "light"@,
                self.client_id@,
                pin@ as nat,
                "/config"@,
            ),
            r.spec.state_topic@ == r.state_topic@,
            r.spec.command_topic@ == topic_of(
                self.prefix@,
                "light"@,
                self.client_id@,
                pin@ as nat,
                "/switch"@,
            ),
            is_pin_name(r.spec.name@, self.outputs(), "Output"@, pin),
            exists|id: Seq<char>| #[trigger]
                is_pin_id(id, self.outputs(), pin) && r.spec.unique_id@ == self.client_id@
                    + "_output_"@ + id,
    {
        let number = pin.get();
        let state_topic = self.topic("light", number, "/status");
        LightAnnouncement {
            discovery_topic: self.topic("light", number, "/config"),
            state_topic: state_topic.clone(),
            spec: LightSpec {
                unique_id: self.unique_output_id(pin),
                name: self.output_name(pin),
                command_topic: self.topic("light", number, "/switch"),
                state_topic,
            },
        }
    }
}

} // verus!
