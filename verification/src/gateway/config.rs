//! The gateway's configuration: the values that a configuration file gives,
//! and the values that stand in for what it leaves out.

use vstd::prelude::*;
use vstd::string::StringExecFns;

verus! {

/// The whole configuration. Lights and buttons are listed with their
/// identifiers, in the order of the file.
#[derive(Clone, Debug)]
pub struct Config {
    pub mqtt: MqttConfig,
    pub webthing: WebThingConfig,
    pub serial: SerialConfig,
    pub lights: Vec<(String, LightConfig)>,
    pub buttons: Vec<(String, ButtonConfig)>,
}

#[derive(Clone, Debug)]
pub struct MqttConfig {
    pub client_id: String,
    pub host: String,
    pub port: u16,
    pub homeassistant: HomeAssistantConfig,
    pub homie: HomieConfig,
}

#[derive(Clone, Debug)]
pub struct HomeAssistantConfig {
    pub enabled: bool,
    pub prefix: String,
}

#[derive(Clone, Debug)]
pub struct HomieConfig {
    pub enabled: bool,
    pub device_id: String,
    pub name: String,
}

#[derive(Clone, Debug)]
pub struct SerialConfig {
    pub port: String,
    pub baud_rate: u32,
    /// How long to wait for the port, in milliseconds.
    pub timeout: u64,
}

#[derive(Clone, Debug)]
pub struct WebThingConfig {
    pub enabled: bool,
    pub base_uri: String,
}

#[derive(Clone, Debug)]
pub struct LightConfig {
    pub index: u8,
    pub name: String,
}

#[derive(Clone, Debug)]
pub struct ButtonConfig {
    pub index: u8,
    pub name: String,
}

/// The name to show for a thing: its own name, or its identifier where it
/// has no name.
pub open spec fn display_name(name: Seq<char>, id: Seq<char>) -> Seq<char> {
    if name.len() == 0 {
        id
    } else {
        name
    }
}

/// The light at `index` is the first that is listed under `id`.
pub open spec fn is_first_light(lights: Seq<(String, LightConfig)>, id: Seq<char>, index: int)
    -> bool {
    &&& 0 <= index < lights.len()
    &&& lights[index].0@ == id
    &&& forall|j: int| 0 <= j < index ==> (#[trigger] lights[j]).0@ != id
}

/// The button at `index` is the first that is listed under `id`.
pub open spec fn is_first_button(
    buttons: Seq<(String, ButtonConfig)>,
    id: Seq<char>,
    index: int,
) -> bool {
    &&& 0 <= index < buttons.len()
    &&& buttons[index].0@ == id
    &&& forall|j: int| 0 <= j < index ==> (#[trigger] buttons[j]).0@ != id
}

impl Config {
    /// The name to show for the light with an identifier: nothing where no
    /// light is listed under it, else the light's name, or the identifier
    /// where the name is empty.
    pub fn light_name<'a>(&'a self, light_id: &'a str) -> (r: Option<&'a str>)
        ensures
            r is None <==> forall|i: int|
                0 <= i < self.lights@.len() ==> (#[trigger] self.lights@[i]).0@ != light_id@,
            r matches Some(name) ==> exists|i: int|
                #[trigger] is_first_light(self.lights@, light_id@, i) && name@ == display_name(
                    self.lights@[i].1.name@,
                    light_id@,
                ),
    {
        let wanted = light_id.to_owned();
        let n = self.lights.len();
        let mut i: usize = 0;
        while i < n
            invariant
                i <= n,
                n == self.lights@.len(),
                wanted@ == light_id@,
                forall|j: int| 0 <= j < i ==> (#[trigger] self.lights@[j]).0@ != light_id@,
            decreases n - i,
        {
            if self.lights[i].0 == wanted {
                assert(is_first_light(self.lights@, light_id@, i as int));
                let name = self.lights[i].1.name.as_str();
                if name.is_empty() {
                    return Some(light_id);
                } else {
                    return Some(name);
                }
            }
            i += 1;
        }
        None
    }

    /// The name to show for the button with an identifier: nothing where no
    /// button is listed under it, else the button's name, or the identifier
    /// where the name is empty.
    pub fn button_name<'a>(&'a self, button_id: &'a str) -> (r: Option<&'a str>)
        ensures
            r is None <==> forall|i: int|
                0 <= i < self.buttons@.len() ==> (#[trigger] self.buttons@[i]).0@ != button_id@,
            r matches Some(name) ==> exists|i: int|
                #[trigger] is_first_button(self.buttons@, button_id@, i) && name@ == display_name(
                    self.buttons@[i].1.name@,
                    button_id@,
                ),
    {
        let wanted = button_id.to_owned();
        let n = self.buttons.len();
        let mut i: usize = 0;
        while i < n
            invariant
                i <= n,
                n == self.buttons@.len(),
                wanted@ == button_id@,
                forall|j: int| 0 <= j < i ==> (#[trigger] self.buttons@[j]).0@ != button_id@,
            decreases n - i,
        {
            if self.buttons[i].0 == wanted {
                assert(is_first_button(self.buttons@, button_id@, i as int));
                let name = self.buttons[i].1.name.as_str();
                if name.is_empty() {
                    return Some(button_id);
                } else {
                    return Some(name);
                }
            }
            i += 1;
        }
        None
    }
}

pub fn default_ha_enabled() -> (r: bool)
    ensures
        !r,
{
    false
}

pub fn default_ha_prefix() -> (r: String)
    ensures
        r@ == "homeassistant"@,
{
    String::from_str("homeassistant")
}

pub fn default_ha_config() -> (r: HomeAssistantConfig)
    ensures
        !r.enabled,
        r.prefix@ == "homeassistant"@,
{
    HomeAssistantConfig { enabled: default_ha_enabled(), prefix: default_ha_prefix() }
}

pub fn default_homie_config() -> (r: HomieConfig)
    ensures
        !r.enabled,
        r.device_id@ == "standaertha-gateway"@,
        r.name@ == "Standaert Home Automation"@,
{
    HomieConfig {
        enabled: default_homie_enabled(),
        device_id: default_homie_device_id(),
        name: default_homie_name(),
    }
}

pub fn default_homie_enabled() -> (r: bool)
    ensures
        !r,
{
    false
}

pub fn default_homie_device_id() -> (r: String)
    ensures
        r@ == "standaertha-gateway"@,
{
    String::from_str("standaertha-gateway")
}

pub fn default_homie_name() -> (r: String)
    ensures
        r@ == "Standaert Home Automation"@,
{
    String::from_str("Standaert Home Automation")
}

pub fn default_mqtt_client_id() -> (r: String)
    ensures
        r@ == "standaertha-gateway"@,
{
    String::from_str("standaertha-gateway")
}

pub fn default_mqtt_port() -> (r: u16)
    ensures
        r == 1883,
{
    1883
}

pub fn default_serial_baud_rate() -> (r: u32)
    ensures
        r == 9600,
{
    9600
}

/// The number of milliseconds to wait for the serial port, unless the
/// configuration says otherwise.
pub fn default_serial_timeout() -> (r: u64)
    ensures
        r == 1000,
{
    1000
}

pub fn default_webthing_enabled() -> (r: bool)
    ensures
        !r,
{
    false
}

pub fn default_lights_config() -> (r: Vec<(String, LightConfig)>)
    ensures
        r@.len() == 0,
{
    Vec::new()
}

pub fn default_buttons_config() -> (r: Vec<(String, ButtonConfig)>)
    ensures
        r@.len() == 0,
{
    Vec::new()
}

pub fn default_light_name() -> (r: String)
    ensures
        r@.len() == 0,
{
    String::new()
}

pub fn default_button_name() -> (r: String)
    ensures
        r@.len() == 0,
{
    String::new()
}

} // verus!
