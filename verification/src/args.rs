//! The arguments of the bridge.

use vstd::prelude::*;
use vstd::string::StringExecFns;

verus! {

/// What the bridge is told when it starts.
#[derive(Clone, Debug)]
pub struct Args {
    /// MQTT broker host
    pub mqtt_url: Option<String>,
    /// MQTT broker user
    pub mqtt_user: Option<String>,
    /// MQTT broker password
    pub mqtt_password: Option<String>,
    /// Home assistant discovery prefix
    pub prefix: String,
    /// Serial device
    pub serial: Option<String>,
    /// Program location
    pub program: Option<String>,
    /// Determines whether we actually upload the program
    pub upload: bool,
    /// Verbose
    pub debug: bool,
}

/// The text `enabled` or `disabled`.
pub open spec fn enabled_text(enabled: bool) -> Seq<char> {
    if enabled {
        "enabled"@
    } else {
        "disabled"@
    }
}

impl Args {
    /// What is said of MQTT.
    pub open spec fn mqtt_text(self) -> Seq<char> {
        match self.mqtt_url {
            Some(url) => "  MQTT options:\n    URL: "@ + url@ + "\n    user: "@
                + match self.mqtt_user {
                Some(user) => user@,
                None => "<none>"@,
            } + "\n    password: "@ + if self.mqtt_password is Some {
                "***"@
            } else {
                "<none>"@
            } + "\n    prefix: "@ + self.prefix@ + "\n"@,
            None => "  MQTT: disabled\n"@,
        }
    }

    /// What is said of the serial port.
    pub open spec fn serial_text(self) -> Seq<char> {
        match self.serial {
            Some(serial) => "  Serial port: "@ + serial@ + "\n"@,
            None => "  Serial: <disabled>\n"@,
        }
    }

    /// What is said of the program.
    pub open spec fn program_text(self) -> Seq<char> {
        match self.program {
            Some(program) => "  Program:\n    path: "@ + program@ + "\n    upload: "@
                + enabled_text(self.upload) + "\n"@,
            None => "  Program: <disabled>\n"@,
        }
    }

    /// The arguments as they are shown: MQTT, the serial port, the program,
    /// and whether the bridge is verbose. A password is never shown.
    pub open spec fn text(self) -> Seq<char> {
        self.mqtt_text() + self.serial_text() + self.program_text() + "  Debug: "@ + enabled_text(
            self.debug,
        ) + "\n"@
    }

    /// The arguments as they are shown.
    pub fn to_string(&self) -> (r: String)
        ensures
            r@ == self.text(),
    {
        let mut f = String::new();
        if let Some(mqtt_url) = &self.mqtt_url {
            f.append("  MQTT options:\n    URL: ");
            f.append(mqtt_url.as_str());
            f.append("\n    user: ");
            if let Some(mqtt_user) = &self.mqtt_user {
                f.append(mqtt_user.as_str());
            } else {
                f.append("<none>");
            }
            f.append("\n    password: ");
            if self.mqtt_password.is_some() {
                f.append("***");
            } else {
                f.append("<none>");
            }
            f.append("\n    prefix: ");
            f.append(self.prefix.as_str());
            f.append("\n");
        } else {
            f.append("  MQTT: disabled\n");
        }
        assert(f@ =~= self.mqtt_text());
        if let Some(serial) = &self.serial {
            f.append("  Serial port: ");
            f.append(serial.as_str());
            f.append("\n");
        } else {
            f.append("  Serial: <disabled>\n");
        }
        assert(f@ =~= self.mqtt_text() + self.serial_text());
        if let Some(program) = &self.program {
            f.append("  Program:\n    path: ");
            f.append(program.as_str());
            f.append("\n    upload: ");
            f.append(if self.upload {
                "enabled"
            } else {
                "disabled"
            });
            f.append("\n");
        } else {
            f.append("  Program: <disabled>\n");
        }
        assert(f@ =~= self.mqtt_text() + self.serial_text() + self.program_text());
        f.append("  Debug: ");
        f.append(if self.debug {
            "enabled"
        } else {
            "disabled"
        });
        f.append("\n");
        assert(f@ =~= self.text());
        f
    }
}

} // verus!
