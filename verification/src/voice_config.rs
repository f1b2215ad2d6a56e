//! The voice session's configuration: stored client settings, overridden by
//! environment variables, and where recognized text is delivered.
use vstd::prelude::*;
use crate::live_text::PasteTarget;
use crate::settings::{invalid_server_message, parse_server, parse_u16, parse_u16_text, server_address};
use crate::text::{chars_of, str_equal};

verus! {

/// The client's stored settings.
#[derive(Clone, Debug)]
pub struct ClientSettings {
    pub server: String,
    pub audio_port: u16,
    pub token: Option<String>,
    pub input_device_id: Option<String>,
    pub voice_shortcut: String,
    pub start_with_windows: bool,
    pub setup_completed: bool,
}

impl core::default::Default for ClientSettings {
    /// The settings of a fresh installation; a stored file that omits a field
    /// keeps the value given here.
    fn default() -> (s: Self)
        ensures
            s.server@ == "100.116.241.81:4387"@,
            s.audio_port == 5004,
            s.token is None,
            s.input_device_id is None,
            s.voice_shortcut@ == "F13"@,
            s.start_with_windows,
            !s.setup_completed,
    {
        ClientSettings {
            server: String::from_str("100.116.241.81:4387"),
            audio_port: 5004,
            token: None,
            input_device_id: None,
            voice_shortcut: String::from_str("F13"),
            start_with_windows: true,
            setup_completed: false,
        }
    }
}

/// The platform the client was built for.
#[derive(Clone, Copy, Debug, PartialEq, Eq, Structural)]
pub enum TargetOs {
    Windows,
    Linux,
    Other,
}

/// Recognized text is pasted into the focused application only on Windows;
/// elsewhere the user receives it from the transcript window.
pub fn auto_paste_enabled(os: TargetOs) -> (r: bool)
    ensures
        r == (os == TargetOs::Windows),
{
    match os {
        TargetOs::Windows => true,
        _ => false,
    }
}

/// A microphone the user can choose.
#[derive(Clone, Debug)]
pub struct InputDeviceInfo {
    pub id: String,
    pub name: String,
}

/// Everything a voice session needs to reach the bridge.
#[derive(Clone, Debug)]
pub struct NativeVoiceConfig {
    pub server: String,
    pub audio_port: u16,
    pub token: Option<String>,
    pub input_device: Option<String>,
    pub paste_target: PasteTarget,
}

pub open spec fn opt_view(s: Option<String>) -> Option<Seq<char>> {
    match s {
        Some(v) => Some(v@),
        None => None,
    }
}

pub open spec fn invalid_port_message(value: Seq<char>) -> Seq<char> {
    "invalid DOUBAO_BRIDGE_AUDIO_PORT: "@ + value
}

/// The audio port an override gives, or the stored one; `Err` holds the
/// override that is not a port number.
pub open spec fn chosen_port(stored: u16, override_value: Option<Seq<char>>) -> Result<u16, Seq<char>> {
    match override_value {
        None => Ok(stored),
        Some(v) => match parse_u16_text(v) {
            Some(p) => Ok(p),
            None => Err(v),
        },
    }
}

/// The server an override gives, or the stored one.
pub open spec fn chosen_server(stored: Seq<char>, override_value: Option<Seq<char>>) -> Seq<char> {
    match override_value {
        Some(v) => v,
        None => stored,
    }
}

impl NativeVoiceConfig {
    /// The configuration from stored settings and the values of
    /// `DOUBAO_BRIDGE_SERVER`, `DOUBAO_BRIDGE_AUDIO_PORT`,
    /// `DOUBAO_BRIDGE_TOKEN` and `DOUBAO_VOICE_INPUT_DEVICE`, each of which
    /// replaces its stored counterpart when set. The server must be a valid
    /// `host:port`, and a port override must be a number.
    pub fn from_sources(
        settings: ClientSettings,
        server_override: Option<String>,
        port_override: Option<String>,
        token_override: Option<String>,
        device_override: Option<String>,
    ) -> (r: Result<Self, String>)
        ensures
            ({
                let server = chosen_server(settings.server@, opt_view(server_override));
                let port = chosen_port(settings.audio_port, opt_view(port_override));
                match r {
                    Ok(config) => {
                        &&& server_address(server) is Some
                        &&& port == Ok::<u16, Seq<char>>(config.audio_port)
                        &&& config.server@ == server
                        &&& opt_view(config.token) == opt_view(
                            if token_override is Some { token_override } else { settings.token },
                        )
                        &&& opt_view(config.input_device) == opt_view(
                            if device_override is Some { device_override } else { settings.input_device_id },
                        )
                        &&& config.paste_target.clipboard_owner() == 0
                        &&& config.paste_target.input_target() == 0
                    },
                    Err(message) => {
                        ||| (server_address(server) is None && message@ == invalid_server_message(server))
                        ||| (server_address(server) is Some && port is Err
                            && message@ == invalid_port_message(port->Err_0))
                    },
                }
            }),
    {
        let server = match server_override {
            Some(value) => value,
            None => settings.server,
        };
        match parse_server(server.as_str()) {
            Ok(_) => {},
            Err(message) => {
                return Err(message);
            },
        }
        let audio_port = match port_override {
            Some(value) => {
                let chars = chars_of(value.as_str());
                match parse_u16(&chars) {
                    Some(port) => port,
                    None => {
                        let mut message = String::from_str("invalid DOUBAO_BRIDGE_AUDIO_PORT: ");
                        message.append(value.as_str());
                        return Err(message);
                    },
                }
            },
            None => settings.audio_port,
        };
        let token = match token_override {
            Some(value) => Some(value),
            None => settings.token,
        };
        let input_device = match device_override {
            Some(value) => Some(value),
            None => settings.input_device_id,
        };
        Ok(NativeVoiceConfig {
            server,
            audio_port,
            token,
            input_device,
            paste_target: PasteTarget::new(0, 0),
        })
    }

    /// The same configuration, delivering text to `paste_target`.
    pub fn with_paste_target(self, paste_target: PasteTarget) -> (c: Self)
        ensures
            c.server == self.server,
            c.audio_port == self.audio_port,
            c.token == self.token,
            c.input_device == self.input_device,
            c.paste_target == paste_target,
    {
        let mut config = self;
        config.paste_target = paste_target;
        config
    }

    /// Where recognized text is delivered.
    pub fn paste_target(&self) -> (t: PasteTarget)
        ensures
            t == self.paste_target,
    {
        self.paste_target
    }
}


/// The commands a session sends on the control connection before audio:
/// the token when there is one, then `start`.
pub fn start_commands(token: Option<&str>) -> (commands: Vec<String>)
    ensures
        match token {
            Some(t) => commands@.len() == 2 && commands@[0]@ == "token "@ + t@ && commands@[1]@ == "start"@,
            None => commands@.len() == 1 && commands@[0]@ == "start"@,
        },
{
    let mut commands: Vec<String> = Vec::new();
    match token {
        Some(t) => {
            let mut command = String::from_str("token ");
            command.append(t);
            commands.push(command);
        },
        None => {},
    }
    commands.push(String::from_str("start"));
    commands
}

/// Whether the session's result is pasted into the focused application:
/// only where pasting is automatic, and only a non-empty result.
pub fn should_paste_result(os: TargetOs, text: &str) -> (r: bool)
    ensures
        r == (os == TargetOs::Windows && text@.len() > 0),
{
    auto_paste_enabled(os) && text.unicode_len() > 0
}

/// The microphone chosen in the settings list, whose first entry is the
/// system default.
pub fn selected_device_id(devices: &Vec<InputDeviceInfo>, selected: isize) -> (r: Option<String>)
    ensures
        match r {
            Some(id) => 0 < selected <= devices@.len() && id@ == devices@[selected - 1].id@,
            None => selected <= 0 || selected > devices@.len(),
        },
{
    if selected > 0 && (selected as usize) <= devices.len() {
        Some(devices[(selected - 1) as usize].id.clone())
    } else {
        None
    }
}

/// Index of the last occurrence of `id` in `ids`, or -1.
pub open spec fn last_match(ids: Seq<Seq<char>>, id: Seq<char>) -> int
    decreases ids.len(),
{
    if ids.len() == 0 {
        -1
    } else if ids.last() == id {
        ids.len() - 1
    } else {
        last_match(ids.drop_last(), id)
    }
}

/// The entry of the microphone list ("System default" first, then each
/// device) that shows the saved device: one past the last device whose id is
/// the saved one, or the default entry when there is none.
pub open spec fn microphone_entry(saved: Option<Seq<char>>, ids: Seq<Seq<char>>) -> int {
    match saved {
        Some(id) => last_match(ids, id) + 1,
        None => 0,
    }
}

/// The device that a microphone list entry stands for: none for the
/// "System default" entry, or an entry past the list.
pub open spec fn entry_device(selected: int, ids: Seq<Seq<char>>) -> Option<Seq<char>> {
    if 0 < selected <= ids.len() {
        Some(ids[selected - 1])
    } else {
        None
    }
}

/// The ids of the listed devices.
pub open spec fn id_views(devices: Seq<InputDeviceInfo>) -> Seq<Seq<char>> {
    devices.map_values(|d: InputDeviceInfo| d.id@)
}

/// The list entry to select for the saved device.
pub fn microphone_selection(saved: Option<&str>, devices: &Vec<InputDeviceInfo>) -> (selected: usize)
    ensures
        selected == microphone_entry(
            match saved {
                Some(id) => Some(id@),
                None => None,
            },
            id_views(devices@),
        ),
{
    let id = match saved {
        Some(id) => id,
        None => {
            return 0;
        },
    };
    let ghost ids = id_views(devices@);
    let mut selected: usize = 0;
    let mut index: usize = 0;
    assert(ids.take(0) =~= Seq::<Seq<char>>::empty());
    while index < devices.len()
        invariant
            ids == id_views(devices@),
            index <= devices.len(),
            selected == last_match(ids.take(index as int), id@) + 1,
        decreases devices.len() - index,
    {
        let ghost prefix = ids.take(index + 1);
        assert(prefix.drop_last() =~= ids.take(index as int));
        assert(prefix.last() == devices@[index as int].id@);
        if str_equal(devices[index].id.as_str(), id) {
            selected = index + 1;
        }
        index = index + 1;
    }
    assert(ids.take(devices.len() as int) =~= ids);
    selected
}

proof fn lemma_last_match(ids: Seq<Seq<char>>, id: Seq<char>)
    ensures
        -1 <= last_match(ids, id) < ids.len(),
        last_match(ids, id) >= 0 ==> ids[last_match(ids, id)] == id,
        last_match(ids, id) == -1 <==> !ids.contains(id),
    decreases ids.len(),
{
    if ids.len() > 0 {
        lemma_last_match(ids.drop_last(), id);
        if ids.last() != id && ids.contains(id) {
            let j = choose|j: int| 0 <= j < ids.len() && ids[j] == id;
            assert(ids.drop_last()[j] == id);
        }
    }
}

/// Opening the settings and saving them without touching the microphone list
/// keeps the saved device when it is in the list, and saves none otherwise.
pub proof fn lemma_microphone_selection_round_trips(saved: Option<Seq<char>>, ids: Seq<Seq<char>>)
    ensures
        entry_device(microphone_entry(saved, ids), ids) == match saved {
            Some(id) => if ids.contains(id) { Some(id) } else { None },
            None => None,
        },
{
    if let Some(id) = saved {
        lemma_last_match(ids, id);
    }
}

/// What the audio host could read of a microphone: its id and its name
/// (`None` where reading failed).
#[derive(Clone, Debug)]
pub struct DeviceLabels {
    pub id: Option<String>,
    pub name: Option<String>,
}

/// `str::to_lowercase` of `text`: Unicode lower-casing, which does not depend
/// on the locale.
pub uninterp spec fn lowercase_text(text: Seq<char>) -> Seq<char>;

/// `str::to_lowercase`.
#[verifier::external_body]
fn lowercase(text: &str) -> (r: String)
    ensures
        r@ == lowercase_text(text@),
{
    text.to_lowercase()
}

/// A microphone is the requested one when its id is the request, or its name
/// is the request without regard to case.
pub open spec fn device_matches(requested: Seq<char>, device: DeviceLabels) -> bool {
    ||| device.id matches Some(id) && id@ == requested
    ||| device.name matches Some(name) && lowercase_text(name@) == lowercase_text(requested)
}

/// The first microphone that matches the request, if any.
pub fn requested_device(requested: &str, devices: &Vec<DeviceLabels>) -> (found: Option<usize>)
    ensures
        match found {
            Some(i) => i < devices@.len() && device_matches(requested@, devices@[i as int])
                && forall|j: int| 0 <= j < i ==> !device_matches(requested@, #[trigger] devices@[j]),
            None => forall|j: int| 0 <= j < devices@.len() ==> !device_matches(requested@, #[trigger] devices@[j]),
        },
{
    let folded = lowercase(requested);
    let mut i: usize = 0;
    while i < devices.len()
        invariant
            i <= devices@.len(),
            folded@ == lowercase_text(requested@),
            forall|j: int| 0 <= j < i ==> !device_matches(requested@, #[trigger] devices@[j]),
        decreases devices.len() - i,
    {
        let by_id = match &devices[i].id {
            Some(id) => str_equal(id.as_str(), requested),
            None => false,
        };
        let by_name = match &devices[i].name {
            Some(name) => str_equal(lowercase(name.as_str()).as_str(), folded.as_str()),
            None => false,
        };
        if by_id || by_name {
            return Some(i);
        }
        i = i + 1;
    }
    None
}

/// A setting given in the environment replaces the stored one, and only then:
/// without an override the stored server and port are used as they are, and
/// a port override that is a port number is that port.
pub proof fn lemma_overrides_replace_stored_settings(
    stored_server: Seq<char>,
    stored_port: u16,
    server: Option<Seq<char>>,
    port: Option<u16>,
)
    ensures
        server matches Some(v) ==> chosen_server(stored_server, server) == v,
        server is None ==> chosen_server(stored_server, server) == stored_server,
        chosen_port(stored_port, None) == Ok::<u16, Seq<char>>(stored_port),
        port matches Some(p) ==> chosen_port(stored_port, Some(crate::text::decimal(p as nat)))
            == Ok::<u16, Seq<char>>(p),
{
    if let Some(p) = port {
        crate::settings::lemma_port_numerals_round_trip(p);
    }
}

} // verus!
