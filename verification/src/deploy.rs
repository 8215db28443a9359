//! Installing a relay on a server: which commands are run and which files are
//! sent, by what the server answers.

use vstd::prelude::*;
use vstd::slice::slice_to_vec;
use vstd::string::StringExecFns;
use vstd::utf8;
use crate::hex::{self, generate_key_hex, is_hex_key, sha256_hex};
use crate::keys;
use crate::text::{self, push_decimal, trim};

verus! {

/// The server to install a relay on, as the user gives it.
#[derive(Debug, Clone)]
pub struct DeployConfig {
    pub host: String,
    pub port: Option<u16>,
    pub user: String,
    pub password: String,
}

/// What a client needs to use the installed relay.
#[derive(Debug, Clone)]
pub struct DeployResult {
    pub key_hex: String,
    pub relay_addr: String,
}

/// Where the relay's program is installed.
pub const BINARY_PATH: &'static str = "/usr/local/bin/aion2-relay";

/// Where the key of this program's user is installed.
pub const KEY_PATH: &'static str = "/etc/aion2-relay/keys/app.key";

/// Where the description of the service is installed.
pub const SERVICE_PATH: &'static str = "/etc/systemd/system/aion2-relay.service";

/// The description of the service.
pub const SYSTEMD_SERVICE: &'static str = "[Unit]
Description=Aion2 Relay Daemon
After=network.target

[Service]
Type=simple
ExecStart=/usr/local/bin/aion2-relay /etc/aion2-relay/keys
Environment=LISTEN_ADDR=0.0.0.0:443
Environment=RUST_LOG=info
Restart=always
RestartSec=3
NoNewPrivileges=true
ProtectSystem=strict
ProtectHome=true
ReadOnlyPaths=/
ReadWritePaths=/var/log
PrivateTmp=true

[Install]
WantedBy=multi-user.target
";

/// Stops the service, if it runs.
pub const STOP_COMMAND: &'static str = "systemctl stop aion2-relay 2>/dev/null || true";

/// Makes the directory of keys.
pub const MKDIR_COMMAND: &'static str =
    "mkdir -p /etc/aion2-relay/keys && chmod 700 /etc/aion2-relay/keys";

/// Shows the installed key, if there is one.
pub const SHOW_KEY_COMMAND: &'static str = "cat /etc/aion2-relay/keys/app.key 2>/dev/null || echo ''";

/// Makes the system read the descriptions of services again.
pub const RELOAD_COMMAND: &'static str = "systemctl daemon-reload";

/// Lets datagrams and streams to the relay's port through the firewall.
pub const FIREWALL_COMMAND: &'static str =
    "command -v ufw >/dev/null 2>&1 && ufw allow 443/udp 2>/dev/null && ufw allow 443/tcp 2>/dev/null; \
         iptables -C INPUT -p udp --dport 443 -j ACCEPT 2>/dev/null || \
         iptables -A INPUT -p udp --dport 443 -j ACCEPT 2>/dev/null; \
         iptables -C INPUT -p tcp --dport 443 -j ACCEPT 2>/dev/null || \
         iptables -A INPUT -p tcp --dport 443 -j ACCEPT 2>/dev/null; true";

/// Makes the system start the service whenever it starts itself.
pub const ENABLE_COMMAND: &'static str = "systemctl enable aion2-relay 2>/dev/null || true";

/// Starts the service anew.
pub const RESTART_COMMAND: &'static str = "systemctl restart aion2-relay";

/// Starts the service, if it does not run.
pub const START_COMMAND: &'static str = "systemctl start aion2-relay 2>/dev/null || true";

/// Says whether the service runs.
pub const CHECK_COMMAND: &'static str = "systemctl is-active aion2-relay";

/// Shows the last lines of the service's log.
pub const JOURNAL_COMMAND: &'static str =
    "journalctl -u aion2-relay -n 10 --no-pager 2>/dev/null || true";

/// How far an installation is: what it waits for.
#[derive(Debug, Clone, Copy, PartialEq, Eq, Structural)]
pub enum DeployPhase {
    /// The relay's program.
    Reading,
    /// The connection to the server.
    Connecting,
    /// The digest of the installed program.
    HashingBinary,
    /// The end of the running service.
    Stopping,
    /// The program to be sent.
    SendingBinary,
    /// The directory of keys.
    MakingDirs,
    /// The installed key.
    ReadingKey,
    /// The key to be sent.
    SendingKey,
    /// The digest of the installed description of the service.
    HashingService,
    /// The description to be sent.
    SendingService,
    /// The description to be read by the system.
    Reloading,
    /// The firewall.
    OpeningFirewall,
    /// The service to be enabled.
    Enabling,
    /// The service to be started.
    Starting,
    /// A moment to pass.
    Pausing,
    /// Whether the service runs.
    Checking,
    /// The service's log.
    ReadingJournal,
    /// Nothing.
    Done,
}

/// What an installation does next.
pub enum DeployAction {
    /// Find the relay's program.
    ReadBinary,
    /// Connect to the server and log in.
    Connect { host: String, port: u16, user: String, password: String },
    /// Run a command on the server.
    Exec(String),
    /// Send a file to the server.
    Upload { data: Vec<u8>, path: &'static str, mode: i32 },
    /// Wait a moment.
    Pause,
    /// Nothing: the relay is installed.
    Finished(DeployResult),
    /// Nothing: the relay could not be installed.
    Failed(String),
}

/// What came of what an installation did last.
pub enum DeployEvent {
    /// The relay's program, or why it could not be found.
    Binary(Result<Vec<u8>, String>),
    /// That the server was reached, or why it was not.
    Connected(Result<(), String>),
    /// The exit status of a command and what it printed, or why it could not be
    /// run.
    Output(Result<(i32, String), String>),
    /// That a file was sent, or why it was not.
    Uploaded(Result<(), String>),
    /// That a moment passed.
    Paused,
}

/// What a [`DeployAction`] says.
pub ghost enum Act {
    ReadBinary,
    Connect { host: Seq<char>, port: u16, user: Seq<char>, password: Seq<char> },
    Exec(Seq<char>),
    Upload { data: Seq<u8>, path: Seq<char>, mode: i32 },
    Pause,
    Finished { key_hex: Seq<char>, relay_addr: Seq<char> },
    Failed(Seq<char>),
}

impl View for DeployAction {
    type V = Act;

    open spec fn view(&self) -> Act {
        match self {
            DeployAction::ReadBinary => Act::ReadBinary,
            DeployAction::Connect { host, port, user, password } => Act::Connect {
                host: host@,
                port: *port,
                user: user@,
                password: password@,
            },
            DeployAction::Exec(command) => Act::Exec(command@),
            DeployAction::Upload { data, path, mode } => Act::Upload {
                data: data@,
                path: path@,
                mode: *mode,
            },
            DeployAction::Pause => Act::Pause,
            DeployAction::Finished(result) => Act::Finished {
                key_hex: result.key_hex@,
                relay_addr: result.relay_addr@,
            },
            DeployAction::Failed(reason) => Act::Failed(reason@),
        }
    }
}

/// What a [`DeployEvent`] says. Of what a command printed, white space around it
/// does not count.
pub ghost enum Event {
    Binary(Result<Seq<u8>, Seq<char>>),
    Connected(Result<(), Seq<char>>),
    Output(Result<(i32, Seq<char>), Seq<char>>),
    Uploaded(Result<(), Seq<char>>),
    Paused,
}

impl View for DeployEvent {
    type V = Event;

    open spec fn view(&self) -> Event {
        match self {
            DeployEvent::Binary(Ok(data)) => Event::Binary(Ok(data@)),
            DeployEvent::Binary(Err(e)) => Event::Binary(Err(e@)),
            DeployEvent::Connected(Ok(())) => Event::Connected(Ok(())),
            DeployEvent::Connected(Err(e)) => Event::Connected(Err(e@)),
            DeployEvent::Output(Ok((exit, printed))) => Event::Output(
                Ok((*exit, text::trimmed(printed@))),
            ),
            DeployEvent::Output(Err(e)) => Event::Output(Err(e@)),
            DeployEvent::Uploaded(Ok(())) => Event::Uploaded(Ok(())),
            DeployEvent::Uploaded(Err(e)) => Event::Uploaded(Err(e@)),
            DeployEvent::Paused => Event::Paused,
        }
    }
}

/// An installation under way.
pub struct Deployment {
    pub config: DeployConfig,
    pub phase: DeployPhase,
    /// Whether something was sent, so that the service has to be started anew.
    pub needs_restart: bool,
    /// The relay's program.
    pub binary: Vec<u8>,
    /// The key that the relay is used with.
    pub key_hex: String,
    /// What the system says of the service, if it does not run.
    pub status: String,
}

/// What a [`Deployment`] says.
pub ghost struct Progress {
    pub host: Seq<char>,
    pub port: u16,
    pub user: Seq<char>,
    pub password: Seq<char>,
    pub phase: DeployPhase,
    pub needs_restart: bool,
    pub binary: Seq<u8>,
    pub key: Seq<char>,
    pub status: Seq<char>,
}

impl View for Deployment {
    type V = Progress;

    open spec fn view(&self) -> Progress {
        Progress {
            host: self.config.host@,
            port: match self.config.port {
                Some(port) => port,
                None => 22,
            },
            user: self.config.user@,
            password: self.config.password@,
            phase: self.phase,
            needs_restart: self.needs_restart,
            binary: self.binary@,
            key: self.key_hex@,
            status: self.status@,
        }
    }
}

/// What an installation does about something that happened: how far it is then,
/// what it reports, and what it does next.
pub ghost struct Step {
    pub after: Progress,
    pub notes: Seq<Seq<char>>,
    pub act: Act,
}

/// Whether something can happen in a phase: it is what the phase waits for.
pub open spec fn fits(phase: DeployPhase, event: Event) -> bool {
    match phase {
        DeployPhase::Reading => event is Binary,
        DeployPhase::Connecting => event is Connected,
        DeployPhase::SendingBinary => event is Uploaded,
        DeployPhase::SendingKey => event is Uploaded,
        DeployPhase::SendingService => event is Uploaded,
        DeployPhase::Pausing => event is Paused,
        DeployPhase::Done => false,
        _ => event is Output,
    }
}

/// The command that prints the digest of a file.
pub open spec fn hash_command(path: Seq<char>) -> Seq<char> {
    "sha256sum "@ + path + " 2>/dev/null | cut -d' ' -f1"@
}

/// The digest that the command for it printed, if it printed one.
pub open spec fn remote_hash(output: Result<(i32, Seq<char>), Seq<char>>) -> Option<Seq<char>> {
    match output {
        Ok((exit, printed)) => if exit == 0 && hex::is_hex32(printed) {
            Some(printed)
        } else {
            None
        },
        Err(_) => None,
    }
}

/// The step that ends an installation without success.
pub open spec fn failing(p: Progress, reason: Seq<char>) -> Step {
    Step {
        after: Progress { phase: DeployPhase::Done, ..p },
        notes: Seq::empty(),
        act: Act::Failed(reason),
    }
}

/// The step from one command to the next: it is run, and waited for in a phase.
pub open spec fn running(
    p: Progress,
    phase: DeployPhase,
    notes: Seq<Seq<char>>,
    command: Seq<char>,
) -> Step {
    Step { after: Progress { phase, ..p }, notes, act: Act::Exec(command) }
}

/// The step after the program is in place.
pub open spec fn making_dirs(p: Progress, note: Seq<char>) -> Step {
    running(
        p,
        DeployPhase::MakingDirs,
        seq![note, "Setting up directories..."@],
        MKDIR_COMMAND@,
    )
}

/// The step after the key is in place.
pub open spec fn hashing_service(p: Progress, note: Seq<char>) -> Step {
    running(
        p,
        DeployPhase::HashingService,
        seq![note, "Checking systemd service..."@],
        hash_command(SERVICE_PATH@),
    )
}

/// What is done about something that happened, if `fresh` is the key that is
/// made where a new one is needed.
pub open spec fn step_for(p: Progress, event: Event, fresh: Seq<char>) -> Step {
    match event {
        Event::Binary(Err(e)) => failing(p, e),
        Event::Connected(Err(e)) => failing(p, e),
        Event::Uploaded(Err(e)) => failing(p, e),
        Event::Binary(Ok(data)) => Step {
            after: Progress { phase: DeployPhase::Connecting, binary: data, ..p },
            notes: seq![
                "Binary loaded ("@ + text::decimal(data.len()) + " bytes)"@,
                "Connecting to "@ + p.host + ":"@ + text::decimal(p.port as nat) + "..."@,
            ],
            act: Act::Connect { host: p.host, port: p.port, user: p.user, password: p.password },
        },
        Event::Connected(Ok(())) => running(
            p,
            DeployPhase::HashingBinary,
            seq!["SSH connected"@, "Checking relay binary..."@],
            hash_command(BINARY_PATH@),
        ),
        Event::Uploaded(Ok(())) => step_after_upload(p),
        Event::Paused => running(p, DeployPhase::Checking, Seq::empty(), CHECK_COMMAND@),
        Event::Output(output) => step_after_command(p, output, fresh),
    }
}

/// What is done after a file was sent.
pub open spec fn step_after_upload(p: Progress) -> Step {
    match p.phase {
        DeployPhase::SendingBinary => making_dirs(
            Progress { needs_restart: true, ..p },
            "Binary uploaded"@,
        ),
        DeployPhase::SendingKey => hashing_service(
            Progress { needs_restart: true, ..p },
            "Key uploaded"@,
        ),
        _ => running(p, DeployPhase::Reloading, Seq::empty(), RELOAD_COMMAND@),
    }
}

/// What is done about what came of a command.
pub open spec fn step_after_command(
    p: Progress,
    output: Result<(i32, Seq<char>), Seq<char>>,
    fresh: Seq<char>,
) -> Step {
    match p.phase {
        // A digest that cannot be had counts as that of another file.
        DeployPhase::HashingBinary => if remote_hash(output) == Some(
            hex::hex_text(hex::sha256(p.binary)),
        ) {
            making_dirs(p, "Binary unchanged, skipping upload"@)
        } else {
            running(
                p,
                DeployPhase::Stopping,
                seq!["Stopping existing service..."@],
                STOP_COMMAND@,
            )
        },
        DeployPhase::HashingService => if remote_hash(output) == Some(
            hex::hex_text(hex::sha256(utf8::encode_utf8(SYSTEMD_SERVICE@))),
        ) {
            running(
                p,
                DeployPhase::OpeningFirewall,
                seq!["Service file unchanged, skipping"@, "Configuring firewall..."@],
                FIREWALL_COMMAND@,
            )
        } else {
            Step {
                after: Progress { phase: DeployPhase::SendingService, ..p },
                notes: seq!["Installing systemd service..."@],
                act: Act::Upload {
                    data: utf8::encode_utf8(SYSTEMD_SERVICE@),
                    path: SERVICE_PATH@,
                    mode: 0o644,
                },
            }
        },
        // Whether the service could be stopped or the firewall opened is no matter.
        DeployPhase::Stopping => Step {
            after: Progress { phase: DeployPhase::SendingBinary, ..p },
            notes: seq!["Uploading relay binary..."@],
            act: Act::Upload { data: p.binary, path: BINARY_PATH@, mode: 0o755 },
        },
        DeployPhase::OpeningFirewall => running(
            p,
            DeployPhase::Enabling,
            Seq::empty(),
            ENABLE_COMMAND@,
        ),
        _ => match output {
            Err(e) => failing(p, e),
            Ok((exit, printed)) => step_after_answer(p, exit, printed, fresh),
        },
    }
}

/// What is done about what a command that has to be run printed.
pub open spec fn step_after_answer(
    p: Progress,
    exit: i32,
    printed: Seq<char>,
    fresh: Seq<char>,
) -> Step {
    match p.phase {
        DeployPhase::MakingDirs => running(
            p,
            DeployPhase::ReadingKey,
            Seq::empty(),
            SHOW_KEY_COMMAND@,
        ),
        DeployPhase::ReadingKey => if exit == 0 && hex::is_hex32(printed) {
            hashing_service(Progress { key: printed, ..p }, "Reusing existing key"@)
        } else {
            Step {
                after: Progress { phase: DeployPhase::SendingKey, key: fresh, ..p },
                notes: seq!["Generating tunnel key..."@],
                act: Act::Upload {
                    data: utf8::encode_utf8(fresh),
                    path: KEY_PATH@,
                    mode: 0o600,
                },
            }
        },
        DeployPhase::Reloading => running(
            Progress { needs_restart: true, ..p },
            DeployPhase::OpeningFirewall,
            seq!["Configuring firewall..."@],
            FIREWALL_COMMAND@,
        ),
        DeployPhase::Enabling => if p.needs_restart {
            running(
                p,
                DeployPhase::Starting,
                seq!["Restarting relay service (config changed)..."@],
                RESTART_COMMAND@,
            )
        } else {
            running(
                p,
                DeployPhase::Starting,
                seq!["Ensuring service is running..."@],
                START_COMMAND@,
            )
        },
        DeployPhase::Starting => Step {
            after: Progress { phase: DeployPhase::Pausing, ..p },
            notes: Seq::empty(),
            act: Act::Pause,
        },
        DeployPhase::Checking => if exit == 0 && printed == "active"@ {
            let relay_addr = p.host + ":443"@;
            Step {
                after: Progress { phase: DeployPhase::Done, ..p },
                notes: seq!["Relay deployed successfully at "@ + relay_addr],
                act: Act::Finished { key_hex: p.key, relay_addr },
            }
        } else {
            running(
                Progress { status: printed, ..p },
                DeployPhase::ReadingJournal,
                Seq::empty(),
                JOURNAL_COMMAND@,
            )
        },
        _ => failing(
            p,
            "Service not active (status: "@ + p.status + "). Journal:\n"@ + printed,
        ),
    }
}

fn push_note(notes: &mut Vec<String>, note: &str)
    ensures
        text::texts(final(notes)@) == text::texts(old(notes)@).push(note@),
{
    notes.push(note.to_owned());
    assert(text::texts(notes@) =~= text::texts(old(notes)@).push(note@));
}

fn no_notes() -> (notes: Vec<String>)
    ensures
        text::texts(notes@) == Seq::<Seq<char>>::empty(),
{
    let notes: Vec<String> = Vec::new();
    assert(text::texts(notes@) =~= Seq::<Seq<char>>::empty());
    notes
}

fn one_note(note: &str) -> (notes: Vec<String>)
    ensures
        text::texts(notes@) == seq![note@],
{
    let mut notes: Vec<String> = no_notes();
    push_note(&mut notes, note);
    assert(text::texts(notes@) =~= seq![note@]);
    notes
}

fn two_notes(first: &str, second: &str) -> (notes: Vec<String>)
    ensures
        text::texts(notes@) == seq![first@, second@],
{
    let mut notes: Vec<String> = one_note(first);
    push_note(&mut notes, second);
    assert(text::texts(notes@) =~= seq![first@, second@]);
    notes
}

fn hash_command_for(path: &str) -> (command: String)
    ensures
        command@ == hash_command(path@),
{
    let mut command = "sha256sum ".to_owned();
    command.append(path);
    command.append(" 2>/dev/null | cut -d' ' -f1");
    command
}

/// The digest that the command for it printed, if it printed one.
pub fn remote_sha256(output: &Result<(i32, String), String>) -> (r: Option<String>)
    ensures
        match output {
            Ok((exit, printed)) => match r {
                Some(digest) => {
                    &&& *exit == 0
                    &&& hex::is_hex32(text::trimmed(printed@))
                    &&& digest@ == text::trimmed(printed@)
                },
                None => *exit != 0 || !hex::is_hex32(text::trimmed(printed@)),
            },
            Err(_) => r is None,
        },
{
    match output {
        Ok((exit, printed)) => {
            let printed: &str = trim(printed.as_str());
            if *exit == 0 && is_hex_key(printed) {
                Some(printed.to_owned())
            } else {
                None
            }
        },
        Err(_) => None,
    }
}

/// Whether a command printed the digest of some data.
fn prints_digest_of(output: &Result<(i32, String), String>, data: &[u8]) -> (r: bool)
    ensures
        r == (remote_hash(DeployEvent::Output(*output)@->Output_0) == Some(
            hex::hex_text(hex::sha256(data@)),
        )),
{
    match remote_sha256(output) {
        Some(digest) => digest == sha256_hex(data),
        None => false,
    }
}

impl Deployment {
    /// Begins an installation: what it reports, and what it does first.
    pub fn start(config: DeployConfig) -> (r: (Self, Vec<String>, DeployAction))
        ensures
            r.0.config == config,
            r.0@.phase == DeployPhase::Reading,
            !r.0@.needs_restart,
            r.0@.binary == Seq::<u8>::empty(),
            r.0@.key == Seq::<char>::empty(),
            r.0@.status == Seq::<char>::empty(),
            text::texts(r.1@) == seq!["Reading relay binary..."@],
            r.2@ == Act::ReadBinary,
    {
        let deployment = Deployment {
            config,
            phase: DeployPhase::Reading,
            needs_restart: false,
            binary: Vec::new(),
            key_hex: String::new(),
            status: String::new(),
        };
        (deployment, one_note("Reading relay binary..."), DeployAction::ReadBinary)
    }

    /// Takes in what came of what was done last. Where a new key is needed, it is
    /// a random one.
    pub fn step(&mut self, event: DeployEvent) -> (r: (Vec<String>, DeployAction))
        requires
            fits(old(self)@.phase, event@),
        ensures
            exists|fresh: Seq<char>|
                hex::is_key_text(fresh) && {
                    let step = #[trigger] step_for(old(self)@, event@, fresh);
                    &&& final(self)@ == step.after
                    &&& text::texts(r.0@) == step.notes
                    &&& r.1@ == step.act
                },
    {
        let ghost before = self@;
        if self.phase == DeployPhase::ReadingKey {
            let fresh: String = generate_key_hex();
            let ghost said = fresh@;
            let r = self.step_with_key(event, fresh);
            assert(self@ == step_for(before, event@, said).after);
            r
        } else {
            let none: String = String::new();
            let ghost said = none@;
            let r = self.step_with_key(event, none);
            proof {
                let other = hex::hex_text(Seq::new(32, |i: int| 0u8));
                assert(hex::is_key_text(other));
                assert(step_for(before, event@, said) == step_for(before, event@, other));
            }
            r
        }
    }

    /// Takes in what came of what was done last. A new key, where one is needed,
    /// is `fresh`.
    pub fn step_with_key(&mut self, event: DeployEvent, fresh: String) -> (r: (
        Vec<String>,
        DeployAction,
    ))
        requires
            fits(old(self)@.phase, event@),
        ensures
            ({
                let step = step_for(old(self)@, event@, fresh@);
                &&& final(self)@ == step.after
                &&& text::texts(r.0@) == step.notes
                &&& r.1@ == step.act
            }),
    {
        match event {
            DeployEvent::Binary(Ok(data)) => {
                let port: u16 = match self.config.port {
                    Some(port) => port,
                    None => 22,
                };
                let mut loaded = "Binary loaded (".to_owned();
                push_decimal(&mut loaded, data.len() as u64);
                loaded.append(" bytes)");
                let mut connecting = "Connecting to ".to_owned();
                connecting.append(self.config.host.as_str());
                connecting.append(":");
                push_decimal(&mut connecting, port as u64);
                connecting.append("...");
                self.binary = data;
                self.phase = DeployPhase::Connecting;
                let action = DeployAction::Connect {
                    host: self.config.host.clone(),
                    port,
                    user: self.config.user.clone(),
                    password: self.config.password.clone(),
                };
                (two_notes(loaded.as_str(), connecting.as_str()), action)
            },
            DeployEvent::Binary(Err(e)) => self.fail(e),
            DeployEvent::Connected(Ok(())) => {
                self.phase = DeployPhase::HashingBinary;
                (
                    two_notes("SSH connected", "Checking relay binary..."),
                    DeployAction::Exec(hash_command_for(BINARY_PATH)),
                )
            },
            DeployEvent::Connected(Err(e)) => self.fail(e),
            DeployEvent::Uploaded(Ok(())) => self.after_upload(),
            DeployEvent::Uploaded(Err(e)) => self.fail(e),
            DeployEvent::Paused => self.run(DeployPhase::Checking, no_notes(), CHECK_COMMAND),
            DeployEvent::Output(output) => self.after_command(output, fresh),
        }
    }

    fn fail(&mut self, reason: String) -> (r: (Vec<String>, DeployAction))
        ensures
            ({
                let step = failing(old(self)@, reason@);
                &&& final(self)@ == step.after
                &&& text::texts(r.0@) == step.notes
                &&& r.1@ == step.act
            }),
    {
        self.phase = DeployPhase::Done;
        (no_notes(), DeployAction::Failed(reason))
    }

    fn run(&mut self, phase: DeployPhase, notes: Vec<String>, command: &str) -> (r: (
        Vec<String>,
        DeployAction,
    ))
        ensures
            ({
                let step = running(old(self)@, phase, text::texts(notes@), command@);
                &&& final(self)@ == step.after
                &&& text::texts(r.0@) == step.notes
                &&& r.1@ == step.act
            }),
    {
        self.phase = phase;
        (notes, DeployAction::Exec(command.to_owned()))
    }

    fn after_upload(&mut self) -> (r: (Vec<String>, DeployAction))
        ensures
            ({
                let step = step_after_upload(old(self)@);
                &&& final(self)@ == step.after
                &&& text::texts(r.0@) == step.notes
                &&& r.1@ == step.act
            }),
    {
        match self.phase {
            DeployPhase::SendingBinary => {
                self.needs_restart = true;
                let notes = two_notes("Binary uploaded", "Setting up directories...");
                self.run(DeployPhase::MakingDirs, notes, MKDIR_COMMAND)
            },
            DeployPhase::SendingKey => {
                self.needs_restart = true;
                let notes = two_notes("Key uploaded", "Checking systemd service...");
                let command = hash_command_for(SERVICE_PATH);
                self.run(DeployPhase::HashingService, notes, command.as_str())
            },
            _ => self.run(DeployPhase::Reloading, no_notes(), RELOAD_COMMAND),
        }
    }

    fn after_command(&mut self, output: Result<(i32, String), String>, fresh: String) -> (r: (
        Vec<String>,
        DeployAction,
    ))
        ensures
            ({
                let said = DeployEvent::Output(output)@->Output_0;
                let step = step_after_command(old(self)@, said, fresh@);
                &&& final(self)@ == step.after
                &&& text::texts(r.0@) == step.notes
                &&& r.1@ == step.act
            }),
    {
        match self.phase {
            DeployPhase::HashingBinary => {
                if prints_digest_of(&output, self.binary.as_slice()) {
                    let notes = two_notes(
                        "Binary unchanged, skipping upload",
                        "Setting up directories...",
                    );
                    self.run(DeployPhase::MakingDirs, notes, MKDIR_COMMAND)
                } else {
                    let notes = one_note("Stopping existing service...");
                    self.run(DeployPhase::Stopping, notes, STOP_COMMAND)
                }
            },
            DeployPhase::HashingService => {
                if prints_digest_of(&output, SYSTEMD_SERVICE.as_bytes()) {
                    let notes = two_notes(
                        "Service file unchanged, skipping",
                        "Configuring firewall...",
                    );
                    self.run(DeployPhase::OpeningFirewall, notes, FIREWALL_COMMAND)
                } else {
                    self.phase = DeployPhase::SendingService;
                    let action = DeployAction::Upload {
                        data: slice_to_vec(SYSTEMD_SERVICE.as_bytes()),
                        path: SERVICE_PATH,
                        mode: 0o644,
                    };
                    (one_note("Installing systemd service..."), action)
                }
            },
            DeployPhase::Stopping => {
                self.phase = DeployPhase::SendingBinary;
                let action = DeployAction::Upload {
                    data: slice_to_vec(self.binary.as_slice()),
                    path: BINARY_PATH,
                    mode: 0o755,
                };
                (one_note("Uploading relay binary..."), action)
            },
            DeployPhase::OpeningFirewall => self.run(
                DeployPhase::Enabling,
                no_notes(),
                ENABLE_COMMAND,
            ),
            _ => match output {
                Ok((exit, printed)) => self.after_answer(exit, trim(printed.as_str()), fresh),
                Err(e) => self.fail(e),
            },
        }
    }

    fn after_answer(&mut self, exit: i32, printed: &str, fresh: String) -> (r: (
        Vec<String>,
        DeployAction,
    ))
        ensures
            ({
                let step = step_after_answer(old(self)@, exit, printed@, fresh@);
                &&& final(self)@ == step.after
                &&& text::texts(r.0@) == step.notes
                &&& r.1@ == step.act
            }),
    {
        match self.phase {
            DeployPhase::MakingDirs => self.run(
                DeployPhase::ReadingKey,
                no_notes(),
                SHOW_KEY_COMMAND,
            ),
            DeployPhase::ReadingKey => {
                if exit == 0 && is_hex_key(printed) {
                    self.key_hex = printed.to_owned();
                    let notes = two_notes("Reusing existing key", "Checking systemd service...");
                    let command = hash_command_for(SERVICE_PATH);
                    self.run(DeployPhase::HashingService, notes, command.as_str())
                } else {
                    let data: Vec<u8> = slice_to_vec(fresh.as_str().as_bytes());
                    self.key_hex = fresh;
                    self.phase = DeployPhase::SendingKey;
                    let action = DeployAction::Upload { data, path: KEY_PATH, mode: 0o600 };
                    (one_note("Generating tunnel key..."), action)
                }
            },
            DeployPhase::Reloading => {
                self.needs_restart = true;
                let notes = one_note("Configuring firewall...");
                self.run(DeployPhase::OpeningFirewall, notes, FIREWALL_COMMAND)
            },
            DeployPhase::Enabling => {
                if self.needs_restart {
                    let notes = one_note("Restarting relay service (config changed)...");
                    self.run(DeployPhase::Starting, notes, RESTART_COMMAND)
                } else {
                    let notes = one_note("Ensuring service is running...");
                    self.run(DeployPhase::Starting, notes, START_COMMAND)
                }
            },
            DeployPhase::Starting => {
                self.phase = DeployPhase::Pausing;
                (no_notes(), DeployAction::Pause)
            },
            DeployPhase::Checking => {
                if exit == 0 && printed.to_owned() == "active".to_owned() {
                    let mut relay_addr = self.config.host.clone();
                    relay_addr.append(":443");
                    let mut note = "Relay deployed successfully at ".to_owned();
                    note.append(relay_addr.as_str());
                    self.phase = DeployPhase::Done;
                    let result = DeployResult { key_hex: self.key_hex.clone(), relay_addr };
                    (one_note(note.as_str()), DeployAction::Finished(result))
                } else {
                    self.status = printed.to_owned();
                    self.run(DeployPhase::ReadingJournal, no_notes(), JOURNAL_COMMAND)
                }
            },
            _ => {
                let mut reason = "Service not active (status: ".to_owned();
                reason.append(self.status.as_str());
                reason.append("). Journal:\n");
                reason.append(printed);
                self.fail(reason)
            },
        }
    }
}

/// Whether an installation has only begun.
pub open spec fn is_start(p: Progress) -> bool {
    p.phase == DeployPhase::Reading && !p.needs_restart
}

/// How far an installation is after several things happened in turn, each with
/// the key that would be made then.
pub open spec fn progress_after(start: Progress, events: Seq<(Event, Seq<char>)>) -> Progress
    decreases events.len(),
{
    if events.len() == 0 {
        start
    } else {
        let (event, fresh) = events.last();
        step_for(progress_after(start, events.drop_last()), event, fresh).after
    }
}

/// Whether several things can happen in turn.
pub open spec fn all_fit(start: Progress, events: Seq<(Event, Seq<char>)>) -> bool
    decreases events.len(),
{
    events.len() > 0 ==> {
        &&& all_fit(start, events.drop_last())
        &&& fits(progress_after(start, events.drop_last()).phase, events.last().0)
        &&& hex::is_key_text(events.last().1)
    }
}

/// What is done about several things that happened in turn.
pub open spec fn acts_for(start: Progress, events: Seq<(Event, Seq<char>)>) -> Seq<Act>
    decreases events.len(),
{
    if events.len() == 0 {
        Seq::empty()
    } else {
        let (event, fresh) = events.last();
        acts_for(start, events.drop_last()).push(
            step_for(progress_after(start, events.drop_last()), event, fresh).act,
        )
    }
}

/// Whether a file is sent among the first `n` things that are done.
pub open spec fn sends_file(acts: Seq<Act>, n: int) -> bool {
    exists|j: int| 0 <= j < n && (#[trigger] acts[j]) is Upload
}

/// Whether a command starts the service.
spec fn starts_service(command: Seq<char>) -> bool {
    command == RESTART_COMMAND@ || command == START_COMMAND@
}

proof fn lemma_commands_differ()
    ensures
        !starts_service(hash_command(BINARY_PATH@)),
        !starts_service(hash_command(SERVICE_PATH@)),
        !starts_service(STOP_COMMAND@),
        !starts_service(MKDIR_COMMAND@),
        !starts_service(SHOW_KEY_COMMAND@),
        !starts_service(RELOAD_COMMAND@),
        !starts_service(FIREWALL_COMMAND@),
        !starts_service(ENABLE_COMMAND@),
        !starts_service(CHECK_COMMAND@),
        !starts_service(JOURNAL_COMMAND@),
        RESTART_COMMAND@ != START_COMMAND@,
        BINARY_PATH@ != KEY_PATH@,
        BINARY_PATH@ != SERVICE_PATH@,
        KEY_PATH@ != SERVICE_PATH@,
{
    reveal_strlit("sha256sum ");
    reveal_strlit("systemctl stop aion2-relay 2>/dev/null || true");
    reveal_strlit("mkdir -p /etc/aion2-relay/keys && chmod 700 /etc/aion2-relay/keys");
    reveal_strlit("cat /etc/aion2-relay/keys/app.key 2>/dev/null || echo ''");
    reveal_strlit("systemctl daemon-reload");
    reveal_strlit("systemctl enable aion2-relay 2>/dev/null || true");
    reveal_strlit("systemctl restart aion2-relay");
    reveal_strlit("systemctl start aion2-relay 2>/dev/null || true");
    reveal_strlit("systemctl is-active aion2-relay");
    reveal_strlit("journalctl -u aion2-relay -n 10 --no-pager 2>/dev/null || true");
    reveal_strlit(
        "command -v ufw >/dev/null 2>&1 && ufw allow 443/udp 2>/dev/null && ufw allow 443/tcp 2>/dev/null; \
         iptables -C INPUT -p udp --dport 443 -j ACCEPT 2>/dev/null || \
         iptables -A INPUT -p udp --dport 443 -j ACCEPT 2>/dev/null; \
         iptables -C INPUT -p tcp --dport 443 -j ACCEPT 2>/dev/null || \
         iptables -A INPUT -p tcp --dport 443 -j ACCEPT 2>/dev/null; true",
    );
    reveal_strlit("/usr/local/bin/aion2-relay");
    reveal_strlit("/etc/aion2-relay/keys/app.key");
    reveal_strlit("/etc/systemd/system/aion2-relay.service");
    assert(hash_command(BINARY_PATH@)[1] == 'h');
    assert(hash_command(SERVICE_PATH@)[1] == 'h');
    assert(RESTART_COMMAND@[1] == 'y');
    assert(START_COMMAND@[1] == 'y');
    assert(RESTART_COMMAND@.len() == 29);
    assert(START_COMMAND@.len() == 47);
    assert(FIREWALL_COMMAND@[0] == 'c');
    assert(RESTART_COMMAND@[0] == 's');
    assert(START_COMMAND@[0] == 's');
}

/// What holds between how far an installation is and what it has done.
spec fn in_step(p: Progress, acts: Seq<Act>) -> bool {
    let sent = sends_file(acts, acts.len() as int);
    &&& p.needs_restart ==> sent
    &&& match p.phase {
        DeployPhase::SendingBinary => true,
        DeployPhase::SendingKey => true,
        DeployPhase::SendingService => true,
        DeployPhase::Reloading => true,
        DeployPhase::Done => true,
        _ => sent ==> p.needs_restart,
    }
    &&& p.phase == DeployPhase::Stopping ==> acts.len() > 0 && acts.last() == Act::Exec(
        STOP_COMMAND@,
    )
    &&& p.phase == DeployPhase::SendingBinary || p.phase == DeployPhase::SendingKey || p.phase
        == DeployPhase::SendingService || p.phase == DeployPhase::Reloading ==> sent
}

proof fn lemma_in_step(start: Progress, events: Seq<(Event, Seq<char>)>)
    requires
        is_start(start),
        all_fit(start, events),
    ensures
        in_step(progress_after(start, events), acts_for(start, events)),
        acts_for(start, events).len() == events.len(),
    decreases events.len(),
{
    if events.len() > 0 {
        let init = events.drop_last();
        lemma_in_step(start, init);
        let before = acts_for(start, init);
        let after = acts_for(start, events);
        let n = before.len() as int;
        assert(forall|j: int| 0 <= j < n ==> after[j] == before[j]);
        if sends_file(before, n) {
            let j = choose|j: int| 0 <= j < n && (#[trigger] before[j]) is Upload;
            assert(after[j] is Upload);
        }
        if sends_file(after, n + 1) && !(after[n] is Upload) {
            let j = choose|j: int| 0 <= j < n + 1 && (#[trigger] after[j]) is Upload;
            assert(before[j] is Upload);
        }
    }
}

/// Whether the service is started anew after something was sent, is only
/// started if nothing was, and is stopped before its program is overwritten.
pub open spec fn is_careful(acts: Seq<Act>, i: int) -> bool {
    &&& acts[i] == Act::Exec(RESTART_COMMAND@) ==> sends_file(acts, i)
    &&& acts[i] == Act::Exec(START_COMMAND@) ==> !sends_file(acts, i)
    &&& acts[i] matches Act::Upload { path, .. } ==> path == BINARY_PATH@ ==> i > 0 && acts[i - 1]
        == Act::Exec(STOP_COMMAND@)
}

/// The service is started anew if and only if something was sent to the server
/// before it is started, and it is stopped before its program is overwritten.
pub proof fn lemma_restart_iff_changed(start: Progress, events: Seq<(Event, Seq<char>)>)
    requires
        is_start(start),
        all_fit(start, events),
    ensures
        forall|i: int|
            0 <= i < events.len() ==> #[trigger] is_careful(acts_for(start, events), i),
    decreases events.len(),
{
    if events.len() > 0 {
        let init = events.drop_last();
        let n = init.len() as int;
        lemma_restart_iff_changed(start, init);
        lemma_in_step(start, init);
        lemma_commands_differ();
        let before = acts_for(start, init);
        let after = acts_for(start, events);
        assert(forall|j: int| 0 <= j < n ==> after[j] == before[j]);
        assert forall|i: int| 0 <= i <= n implies sends_file(after, i) == sends_file(before, i) by {
            if sends_file(after, i) {
                let j = choose|j: int| 0 <= j < i && (#[trigger] after[j]) is Upload;
                assert(before[j] is Upload);
            }
            if sends_file(before, i) {
                let j = choose|j: int| 0 <= j < i && (#[trigger] before[j]) is Upload;
                assert(after[j] is Upload);
            }
        }
        assert forall|i: int| 0 <= i < events.len() implies #[trigger] is_careful(after, i) by {
            if i < n {
                assert(is_careful(before, i));
            }
        }
    }
}

/// The relay's program is sent only if the server printed another digest than
/// its own, or none.
pub proof fn lemma_unchanged_binary_is_not_sent(p: Progress, event: Event, fresh: Seq<char>)
    requires
        p.phase == DeployPhase::HashingBinary,
        event matches Event::Output(output) && remote_hash(output) == Some(
            hex::hex_text(hex::sha256(p.binary)),
        ),
    ensures
        ({
            let step = step_for(p, event, fresh);
            &&& step.act == Act::Exec(MKDIR_COMMAND@)
            &&& step.after.phase == DeployPhase::MakingDirs
            &&& step.after.needs_restart == p.needs_restart
        }),
{
}

/// Whether the key that an installation gives its user is the one on the server:
/// the server showed it, or it was sent there.
pub open spec fn key_is_on_server(
    key: Seq<char>,
    start: Progress,
    events: Seq<(Event, Seq<char>)>,
) -> bool {
    exists|i: int|
        0 <= i < events.len() && {
            ||| (#[trigger] acts_for(start, events)[i]) == (Act::Upload {
                data: utf8::encode_utf8(key),
                path: KEY_PATH@,
                mode: 0o600,
            })
            ||| {
                &&& i > 0
                &&& acts_for(start, events)[i - 1] == Act::Exec(SHOW_KEY_COMMAND@)
                &&& events[i].0 == Event::Output(Ok((0i32, key)))
            }
        }
}

spec fn has_key(phase: DeployPhase) -> bool {
    match phase {
        DeployPhase::Reading => false,
        DeployPhase::Connecting => false,
        DeployPhase::HashingBinary => false,
        DeployPhase::Stopping => false,
        DeployPhase::SendingBinary => false,
        DeployPhase::MakingDirs => false,
        DeployPhase::ReadingKey => false,
        DeployPhase::Done => false,
        _ => true,
    }
}

proof fn lemma_has_key(start: Progress, events: Seq<(Event, Seq<char>)>)
    requires
        is_start(start),
        all_fit(start, events),
    ensures
        ({
            let p = progress_after(start, events);
            let acts = acts_for(start, events);
            &&& acts.len() == events.len()
            &&& p.host == start.host
            &&& p.phase == DeployPhase::ReadingKey ==> acts.len() > 0 && acts.last() == Act::Exec(
                SHOW_KEY_COMMAND@,
            )
            &&& has_key(p.phase) ==> hex::is_hex32(p.key) && key_is_on_server(p.key, start, events)
        }),
    decreases events.len(),
{
    if events.len() > 0 {
        let init = events.drop_last();
        let n = init.len() as int;
        lemma_has_key(start, init);
        let p = progress_after(start, init);
        let q = progress_after(start, events);
        let before = acts_for(start, init);
        let after = acts_for(start, events);
        assert(forall|j: int| 0 <= j < n ==> after[j] == before[j] && events[j] == init[j]);
        if has_key(p.phase) && has_key(q.phase) {
            let i = choose|i: int|
                0 <= i < init.len() && {
                    ||| (#[trigger] before[i]) == (Act::Upload {
                        data: utf8::encode_utf8(p.key),
                        path: KEY_PATH@,
                        mode: 0o600,
                    })
                    ||| {
                        &&& i > 0
                        &&& before[i - 1] == Act::Exec(SHOW_KEY_COMMAND@)
                        &&& init[i].0 == Event::Output(Ok((0i32, p.key)))
                    }
                };
            assert(q.key == p.key);
            assert(after[i] == before[i]);
        } else if has_key(q.phase) {
            assert(p.phase == DeployPhase::ReadingKey);
            let fresh = events.last().1;
            let secret = choose|key: Seq<u8>| key.len() == 32 && fresh == #[trigger] hex::hex_text(key);
            hex::lemma_hex_text_is_hex(secret);
            assert(after[n] == after[n]);
        }
    }
}

/// An installation that succeeds gives the user a key that the server has, and
/// the relay's port on the server; and the system has just said that the service
/// runs.
pub proof fn lemma_success_means_usable(start: Progress, events: Seq<(Event, Seq<char>)>)
    requires
        is_start(start),
        all_fit(start, events),
        events.len() > 0,
        acts_for(start, events).last() is Finished,
    ensures
        acts_for(start, events).last() matches Act::Finished { key_hex, relay_addr } && {
            &&& keys::spells_key(key_hex)
            &&& key_is_on_server(key_hex, start, events)
            &&& relay_addr == start.host + ":443"@
        },
        events.last().0 == Event::Output(Ok((0i32, "active"@))),
{
    let init = events.drop_last();
    let n = init.len() as int;
    lemma_has_key(start, init);
    lemma_has_key(start, events);
    let p = progress_after(start, init);
    let before = acts_for(start, init);
    let after = acts_for(start, events);
    assert(p.phase == DeployPhase::Checking);
    keys::lemma_hex_digits_spell_key(p.key);
    assert(forall|j: int| 0 <= j < n ==> after[j] == before[j] && events[j] == init[j]);
    let i = choose|i: int|
        0 <= i < init.len() && {
            ||| (#[trigger] before[i]) == (Act::Upload {
                data: utf8::encode_utf8(p.key),
                path: KEY_PATH@,
                mode: 0o600,
            })
            ||| {
                &&& i > 0
                &&& before[i - 1] == Act::Exec(SHOW_KEY_COMMAND@)
                &&& init[i].0 == Event::Output(Ok((0i32, p.key)))
            }
        };
    assert(after[i] == before[i]);
}

/// What is told if the relay's program is nowhere.
pub open spec fn missing_binary_text(expected: Seq<char>) -> Seq<char> {
    "Linux relay binary not found.\nRun: cargo zigbuild --release --target x86_64-unknown-linux-musl -p aion2-relay\nExpected at: "@
        + expected
}

/// The relay's program: the one that was just built, if there is one, else the
/// one that came with this program.
pub fn find_relay_binary(
    built: Option<Vec<u8>>,
    bundled: Option<Vec<u8>>,
    expected: Option<String>,
) -> (r: Result<Vec<u8>, String>)
    ensures
        match (built, bundled) {
            (Some(data), _) => r matches Ok(d) && d@ == data@,
            (None, Some(data)) => r matches Ok(d) && d@ == data@,
            (None, None) => r matches Err(text) && text@ == missing_binary_text(
                match expected {
                    Some(path) => path@,
                    None => "<workspace>/target/x86_64-unknown-linux-musl/release/aion2-relay"@,
                },
            ),
        },
        r is Err <==> built is None && bundled is None,
        built matches Some(data) ==> (r matches Ok(d) && d@ == data@),
{
    if let Some(data) = built {
        return Ok(data);
    }
    if let Some(data) = bundled {
        return Ok(data);
    }
    let mut text =
        "Linux relay binary not found.\nRun: cargo zigbuild --release --target x86_64-unknown-linux-musl -p aion2-relay\nExpected at: ".to_owned();
    match expected {
        Some(path) => text.append(path.as_str()),
        None => text.append("<workspace>/target/x86_64-unknown-linux-musl/release/aion2-relay"),
    }
    Err(text)
}

/// Unless the server, asked for the digest of its program, answers with exit status
/// zero and exactly the digest of the local program, the service is stopped and then
/// the local program is sent, to be run by all.
pub proof fn lemma_changed_binary_is_sent(
    p: Progress,
    output: Result<(i32, Seq<char>), Seq<char>>,
    fresh: Seq<char>,
    stopped: Result<(i32, Seq<char>), Seq<char>>,
    next_fresh: Seq<char>,
)
    requires
        p.phase == DeployPhase::HashingBinary,
        output != Ok::<(i32, Seq<char>), Seq<char>>(
            (0i32, hex::hex_text(hex::sha256(p.binary))),
        ),
    ensures
        ({
            let step = step_for(p, Event::Output(output), fresh);
            let next = step_for(step.after, Event::Output(stopped), next_fresh);
            &&& step.act == Act::Exec(STOP_COMMAND@)
            &&& next.act == (Act::Upload { data: p.binary, path: BINARY_PATH@, mode: 0o755 })
        }),
{
}

proof fn lemma_command_lengths()
    ensures
        hash_command(BINARY_PATH@).len() == 64,
        hash_command(SERVICE_PATH@).len() == 77,
        STOP_COMMAND@.len() == 46,
        MKDIR_COMMAND@.len() == 65,
        SHOW_KEY_COMMAND@.len() == 56,
        RELOAD_COMMAND@.len() == 23,
        FIREWALL_COMMAND@.len() == 346,
        ENABLE_COMMAND@.len() == 48,
        RESTART_COMMAND@.len() == 29,
        START_COMMAND@.len() == 47,
        CHECK_COMMAND@.len() == 31,
        JOURNAL_COMMAND@.len() == 62,
        BINARY_PATH@.len() == 26,
        KEY_PATH@.len() == 29,
        SERVICE_PATH@.len() == 39,
{
    reveal_strlit("sha256sum ");
    reveal_strlit(" 2>/dev/null | cut -d' ' -f1");
    reveal_strlit("systemctl stop aion2-relay 2>/dev/null || true");
    reveal_strlit("mkdir -p /etc/aion2-relay/keys && chmod 700 /etc/aion2-relay/keys");
    reveal_strlit("cat /etc/aion2-relay/keys/app.key 2>/dev/null || echo ''");
    reveal_strlit("systemctl daemon-reload");
    reveal_strlit("systemctl enable aion2-relay 2>/dev/null || true");
    reveal_strlit("systemctl restart aion2-relay");
    reveal_strlit("systemctl start aion2-relay 2>/dev/null || true");
    reveal_strlit("systemctl is-active aion2-relay");
    reveal_strlit("journalctl -u aion2-relay -n 10 --no-pager 2>/dev/null || true");
    reveal_strlit(
        "command -v ufw >/dev/null 2>&1 && ufw allow 443/udp 2>/dev/null && ufw allow 443/tcp 2>/dev/null; \
         iptables -C INPUT -p udp --dport 443 -j ACCEPT 2>/dev/null || \
         iptables -A INPUT -p udp --dport 443 -j ACCEPT 2>/dev/null; \
         iptables -C INPUT -p tcp --dport 443 -j ACCEPT 2>/dev/null || \
         iptables -A INPUT -p tcp --dport 443 -j ACCEPT 2>/dev/null; true",
    );
    reveal_strlit("/usr/local/bin/aion2-relay");
    reveal_strlit("/etc/aion2-relay/keys/app.key");
    reveal_strlit("/etc/systemd/system/aion2-relay.service");
}

/// What an installation has done last: at first it looks for the relay's program.
pub open spec fn last_act(acts: Seq<Act>, n: int) -> Act {
    if n == 0 {
        Act::ReadBinary
    } else {
        acts[n - 1]
    }
}

/// Whether an installation waits for what comes of an act.
spec fn awaits(p: Progress, act: Act) -> bool {
    match p.phase {
        DeployPhase::Reading => act == Act::ReadBinary,
        DeployPhase::Connecting => act is Connect,
        DeployPhase::HashingBinary => act == Act::Exec(hash_command(BINARY_PATH@)),
        DeployPhase::Stopping => act == Act::Exec(STOP_COMMAND@),
        DeployPhase::SendingBinary => act == (Act::Upload {
            data: p.binary,
            path: BINARY_PATH@,
            mode: 0o755,
        }),
        DeployPhase::MakingDirs => act == Act::Exec(MKDIR_COMMAND@),
        DeployPhase::ReadingKey => act == Act::Exec(SHOW_KEY_COMMAND@),
        DeployPhase::SendingKey => act == (Act::Upload {
            data: utf8::encode_utf8(p.key),
            path: KEY_PATH@,
            mode: 0o600,
        }),
        DeployPhase::HashingService => act == Act::Exec(hash_command(SERVICE_PATH@)),
        DeployPhase::SendingService => act == (Act::Upload {
            data: utf8::encode_utf8(SYSTEMD_SERVICE@),
            path: SERVICE_PATH@,
            mode: 0o644,
        }),
        DeployPhase::Reloading => act == Act::Exec(RELOAD_COMMAND@),
        DeployPhase::OpeningFirewall => act == Act::Exec(FIREWALL_COMMAND@),
        DeployPhase::Enabling => act == Act::Exec(ENABLE_COMMAND@),
        DeployPhase::Starting => act == Act::Exec(RESTART_COMMAND@) || act == Act::Exec(
            START_COMMAND@,
        ),
        DeployPhase::Pausing => act == Act::Pause,
        DeployPhase::Checking => act == Act::Exec(CHECK_COMMAND@),
        DeployPhase::ReadingJournal => act == Act::Exec(JOURNAL_COMMAND@),
        DeployPhase::Done => act is Finished || act is Failed,
    }
}

/// What an installation keeps in mind: its server, the program that it was given,
/// and what the system last said of the service.
spec fn keeps(start: Progress, p: Progress, events: Seq<(Event, Seq<char>)>) -> bool {
    &&& p.host == start.host && p.port == start.port
    &&& p.user == start.user && p.password == start.password
    &&& events.len() == 0 ==> p.phase == DeployPhase::Reading
    &&& events.len() > 0 && p.phase != DeployPhase::Done ==> events[0].0 == Event::Binary(
        Ok(p.binary),
    )
    &&& p.phase == DeployPhase::ReadingJournal ==> (events.last().0 matches Event::Output(
        Ok((_, printed)),
    ) && p.status == printed)
}

proof fn lemma_awaits(start: Progress, events: Seq<(Event, Seq<char>)>)
    requires
        is_start(start),
        all_fit(start, events),
    ensures
        ({
            let p = progress_after(start, events);
            let acts = acts_for(start, events);
            &&& acts.len() == events.len()
            &&& awaits(p, last_act(acts, acts.len() as int))
            &&& keeps(start, p, events)
        }),
    decreases events.len(),
{
    if events.len() > 0 {
        let init = events.drop_last();
        lemma_awaits(start, init);
        if init.len() > 0 {
            assert(events[0] == init[0]);
        }
    }
}

/// Whether act number `i` of an installation is what is due after what was done
/// before it and what came of that.
pub open spec fn is_due(
    start: Progress,
    events: Seq<(Event, Seq<char>)>,
    acts: Seq<Act>,
    i: int,
) -> bool {
    let (before, event, act) = (last_act(acts, i), events[i].0, acts[i]);
    let program = events[0].0->Binary_0->Ok_0;
    let service = utf8::encode_utf8(SYSTEMD_SERVICE@);
    &&& before == Act::ReadBinary ==> match event {
        Event::Binary(Ok(_)) => act == (Act::Connect {
            host: start.host,
            port: start.port,
            user: start.user,
            password: start.password,
        }),
        Event::Binary(Err(e)) => act == Act::Failed(e),
        _ => false,
    }
    &&& before is Connect ==> match event {
        Event::Connected(Ok(())) => act == Act::Exec(hash_command(BINARY_PATH@)),
        Event::Connected(Err(e)) => act == Act::Failed(e),
        _ => false,
    }
    &&& before == Act::Exec(hash_command(BINARY_PATH@)) ==> (event matches Event::Output(output)
        && act == Act::Exec(
        if prints_digest(output, program) {
            MKDIR_COMMAND@
        } else {
            STOP_COMMAND@
        },
    ))
    &&& before == Act::Exec(STOP_COMMAND@) ==> act == (Act::Upload {
        data: program,
        path: BINARY_PATH@,
        mode: 0o755,
    })
    &&& before == Act::Exec(MKDIR_COMMAND@) ==> match event {
        Event::Output(Ok(_)) => act == Act::Exec(SHOW_KEY_COMMAND@),
        Event::Output(Err(e)) => act == Act::Failed(e),
        _ => false,
    }
    &&& before == Act::Exec(SHOW_KEY_COMMAND@) ==> match event {
        Event::Output(Ok((exit, key))) => if exit == 0 && hex::is_hex32(key) {
            act == Act::Exec(hash_command(SERVICE_PATH@))
        } else {
            act == (Act::Upload {
                data: utf8::encode_utf8(events[i].1),
                path: KEY_PATH@,
                mode: 0o600,
            })
        },
        Event::Output(Err(e)) => act == Act::Failed(e),
        _ => false,
    }
    &&& before == Act::Exec(hash_command(SERVICE_PATH@)) ==> (event matches Event::Output(output)
        && act == if prints_digest(output, service) {
        Act::Exec(FIREWALL_COMMAND@)
    } else {
        Act::Upload { data: service, path: SERVICE_PATH@, mode: 0o644 }
    })
    &&& before matches Act::Upload { path, .. } ==> match event {
        Event::Uploaded(Ok(())) => {
            &&& path == BINARY_PATH@ ==> act == Act::Exec(MKDIR_COMMAND@)
            &&& path == KEY_PATH@ ==> act == Act::Exec(hash_command(SERVICE_PATH@))
            &&& path == SERVICE_PATH@ ==> act == Act::Exec(RELOAD_COMMAND@)
        },
        Event::Uploaded(Err(e)) => act == Act::Failed(e),
        _ => false,
    }
    &&& before == Act::Exec(RELOAD_COMMAND@) ==> match event {
        Event::Output(Ok(_)) => act == Act::Exec(FIREWALL_COMMAND@),
        Event::Output(Err(e)) => act == Act::Failed(e),
        _ => false,
    }
    &&& before == Act::Exec(FIREWALL_COMMAND@) ==> act == Act::Exec(ENABLE_COMMAND@)
    &&& before == Act::Exec(ENABLE_COMMAND@) ==> match event {
        Event::Output(Ok(_)) => act == Act::Exec(
            if sends_file(acts, i) {
                RESTART_COMMAND@
            } else {
                START_COMMAND@
            },
        ),
        Event::Output(Err(e)) => act == Act::Failed(e),
        _ => false,
    }
    &&& before == Act::Exec(RESTART_COMMAND@) || before == Act::Exec(START_COMMAND@) ==> match event {
        Event::Output(Ok(_)) => act == Act::Pause,
        Event::Output(Err(e)) => act == Act::Failed(e),
        _ => false,
    }
    &&& before == Act::Pause ==> act == Act::Exec(CHECK_COMMAND@)
    &&& before == Act::Exec(CHECK_COMMAND@) ==> match event {
        Event::Output(Ok((exit, printed))) => if exit == 0 && printed == "active"@ {
            act matches Act::Finished { relay_addr, .. } && relay_addr == start.host + ":443"@
        } else {
            act == Act::Exec(JOURNAL_COMMAND@)
        },
        Event::Output(Err(e)) => act == Act::Failed(e),
        _ => false,
    }
    &&& before == Act::Exec(JOURNAL_COMMAND@) ==> match event {
        Event::Output(Ok((_, log))) => events[i - 1].0 matches Event::Output(Ok((_, status))) && act
            == Act::Failed("Service not active (status: "@ + status + "). Journal:\n"@ + log),
        Event::Output(Err(e)) => act == Act::Failed(e),
        _ => false,
    }
    &&& !(before is Finished) && !(before is Failed)
}

/// Whether what a command printed is the digest of some data, and the command ended
/// well.
pub open spec fn prints_digest(output: Result<(i32, Seq<char>), Seq<char>>, data: Seq<u8>) -> bool {
    &&& output == Ok::<(i32, Seq<char>), Seq<char>>((0i32, hex::hex_text(hex::sha256(data))))
    &&& hex::is_hex32(hex::hex_text(hex::sha256(data)))
}

#[verifier::rlimit(50)]
proof fn lemma_last_is_due(start: Progress, events: Seq<(Event, Seq<char>)>)
    requires
        is_start(start),
        all_fit(start, events),
        events.len() > 0,
    ensures
        is_due(start, events, acts_for(start, events), events.len() - 1),
{
    let init = events.drop_last();
    let n = init.len() as int;
    let before = acts_for(start, init);
    let after = acts_for(start, events);
    let p = progress_after(start, init);
    lemma_awaits(start, init);
    lemma_awaits(start, events);
    lemma_in_step(start, init);
    lemma_command_lengths();
    assert(forall|j: int| 0 <= j < n ==> after[j] == before[j] && events[j] == init[j]);
    assert(last_act(after, n) == last_act(before, n));
    if sends_file(after, n) {
        let j = choose|j: int| 0 <= j < n && (#[trigger] after[j]) is Upload;
        assert(before[j] is Upload);
    }
    if sends_file(before, n) {
        let j = choose|j: int| 0 <= j < n && (#[trigger] before[j]) is Upload;
        assert(after[j] is Upload);
    }
    assert(events[n] == events.last());
}

/// What an installation does next follows from what it did last and what came of it:
/// the relay's program and the description of the service are sent unless the server
/// has them, a new key unless the server shows one; the service is started anew if
/// anything was sent; whatever has to succeed ends the installation with the reason
/// if it fails; and the digests, stopping the service and the firewall need not
/// succeed.
pub proof fn lemma_what_is_due_is_done(start: Progress, events: Seq<(Event, Seq<char>)>, i: int)
    requires
        is_start(start),
        all_fit(start, events),
        0 <= i < events.len(),
    ensures
        is_due(start, events, acts_for(start, events), i),
    decreases events.len(),
{
    if i == events.len() - 1 {
        lemma_last_is_due(start, events);
    } else {
        let init = events.drop_last();
        let n = init.len() as int;
        lemma_what_is_due_is_done(start, init, i);
        lemma_awaits(start, init);
        let before = acts_for(start, init);
        let after = acts_for(start, events);
        assert(forall|j: int| 0 <= j < n ==> after[j] == before[j] && events[j] == init[j]);
        assert(last_act(after, i) == last_act(before, i));
        if sends_file(after, i) {
            let j = choose|j: int| 0 <= j < i && (#[trigger] after[j]) is Upload;
            assert(before[j] is Upload);
        }
        if sends_file(before, i) {
            let j = choose|j: int| 0 <= j < i && (#[trigger] before[j]) is Upload;
            assert(after[j] is Upload);
        }
    }
}

/// Whether event number `i` shows that a file is on the server: it was sent just
/// before, or the server was asked for its digest and printed the one of the data.
pub open spec fn shows_file(
    data: Seq<u8>,
    path: Seq<char>,
    mode: i32,
    acts: Seq<Act>,
    events: Seq<(Event, Seq<char>)>,
    i: int,
) -> bool {
    &&& 0 < i < events.len()
    &&& {
        ||| {
            &&& acts[i - 1] == (Act::Upload { data, path, mode })
            &&& events[i].0 matches Event::Uploaded(Ok(_))
        }
        ||| {
            &&& acts[i - 1] == Act::Exec(hash_command(path))
            &&& events[i].0 == Event::Output(Ok((0i32, hex::hex_text(hex::sha256(data)))))
        }
    }
}

/// Whether a file is on the server after some things happened.
pub open spec fn has_file(
    data: Seq<u8>,
    path: Seq<char>,
    mode: i32,
    acts: Seq<Act>,
    events: Seq<(Event, Seq<char>)>,
) -> bool {
    exists|i: int| #[trigger] shows_file(data, path, mode, acts, events, i)
}

/// Whether a command was run and ended, well or not.
pub open spec fn has_run(
    command: Seq<char>,
    acts: Seq<Act>,
    events: Seq<(Event, Seq<char>)>,
) -> bool {
    exists|i: int| 0 <= i < events.len() - 1 && (#[trigger] acts[i]) == Act::Exec(command)
}

/// How many of the parts of an installation are behind it.
spec fn stage(phase: DeployPhase) -> int {
    match phase {
        DeployPhase::MakingDirs => 1,
        DeployPhase::ReadingKey => 2,
        DeployPhase::SendingKey => 2,
        DeployPhase::HashingService => 2,
        DeployPhase::SendingService => 2,
        DeployPhase::Reloading => 3,
        DeployPhase::OpeningFirewall => 3,
        DeployPhase::Enabling => 4,
        DeployPhase::Starting => 5,
        DeployPhase::Pausing => 6,
        DeployPhase::Checking => 6,
        DeployPhase::ReadingJournal => 6,
        _ => 0,
    }
}

spec fn has_reached(
    stage: int,
    program: Seq<u8>,
    acts: Seq<Act>,
    events: Seq<(Event, Seq<char>)>,
) -> bool {
    let service = utf8::encode_utf8(SYSTEMD_SERVICE@);
    &&& stage >= 1 ==> has_file(program, BINARY_PATH@, 0o755, acts, events)
    &&& stage >= 2 ==> has_run(MKDIR_COMMAND@, acts, events)
    &&& stage >= 3 ==> has_file(service, SERVICE_PATH@, 0o644, acts, events)
    &&& stage >= 4 ==> has_run(FIREWALL_COMMAND@, acts, events)
    &&& stage >= 5 ==> has_run(ENABLE_COMMAND@, acts, events)
    &&& stage >= 6 ==> has_run(RESTART_COMMAND@, acts, events) || has_run(
        START_COMMAND@,
        acts,
        events,
    )
}

proof fn lemma_has_file_stays(
    data: Seq<u8>,
    path: Seq<char>,
    mode: i32,
    acts: Seq<Act>,
    events: Seq<(Event, Seq<char>)>,
)
    requires
        events.len() > 0,
        acts.len() == events.len(),
        has_file(data, path, mode, acts.drop_last(), events.drop_last()),
    ensures
        has_file(data, path, mode, acts, events),
{
    let i = choose|i: int| #[trigger]
        shows_file(data, path, mode, acts.drop_last(), events.drop_last(), i);
    assert(shows_file(data, path, mode, acts, events, i));
}

proof fn lemma_has_run_stays(
    command: Seq<char>,
    acts: Seq<Act>,
    events: Seq<(Event, Seq<char>)>,
)
    requires
        events.len() > 0,
        acts.len() == events.len(),
        has_run(command, acts.drop_last(), events.drop_last()),
    ensures
        has_run(command, acts, events),
{
    let init = acts.drop_last();
    let i = choose|i: int|
        0 <= i < events.drop_last().len() - 1 && (#[trigger] init[i]) == Act::Exec(command);
    assert(acts[i] == Act::Exec(command));
}

proof fn lemma_reached_stays(
    stage: int,
    program: Seq<u8>,
    acts: Seq<Act>,
    events: Seq<(Event, Seq<char>)>,
)
    requires
        events.len() > 0,
        acts.len() == events.len(),
        has_reached(stage, program, acts.drop_last(), events.drop_last()),
    ensures
        has_reached(stage, program, acts, events),
{
    let service = utf8::encode_utf8(SYSTEMD_SERVICE@);
    let (before, init) = (acts.drop_last(), events.drop_last());
    if stage >= 1 {
        lemma_has_file_stays(program, BINARY_PATH@, 0o755, acts, events);
    }
    if stage >= 2 {
        lemma_has_run_stays(MKDIR_COMMAND@, acts, events);
    }
    if stage >= 3 {
        lemma_has_file_stays(service, SERVICE_PATH@, 0o644, acts, events);
    }
    if stage >= 4 {
        lemma_has_run_stays(FIREWALL_COMMAND@, acts, events);
    }
    if stage >= 5 {
        lemma_has_run_stays(ENABLE_COMMAND@, acts, events);
    }
    if stage >= 6 {
        if has_run(RESTART_COMMAND@, before, init) {
            lemma_has_run_stays(RESTART_COMMAND@, acts, events);
        } else {
            lemma_has_run_stays(START_COMMAND@, acts, events);
        }
    }
}

#[verifier::rlimit(50)]
proof fn lemma_reached(start: Progress, events: Seq<(Event, Seq<char>)>)
    requires
        is_start(start),
        all_fit(start, events),
    ensures
        ({
            let p = progress_after(start, events);
            has_reached(stage(p.phase), p.binary, acts_for(start, events), events)
        }),
    decreases events.len(),
{
    if events.len() > 0 {
        let init = events.drop_last();
        let n = init.len() as int;
        lemma_reached(start, init);
        lemma_awaits(start, init);
        lemma_awaits(start, events);
        let p = progress_after(start, init);
        let q = progress_after(start, events);
        let acts = acts_for(start, events);
        let service = utf8::encode_utf8(SYSTEMD_SERVICE@);
        assert(acts.drop_last() =~= acts_for(start, init));
        lemma_reached_stays(stage(p.phase), p.binary, acts, events);
        assert(n > 0 ==> acts[n - 1] == last_act(acts_for(start, init), n));
        assert(events[n] == events.last());
        if stage(q.phase) > stage(p.phase) {
            assert(n > 0);
            assert(acts[n - 1] == acts_for(start, init)[n - 1]);
            if p.phase == DeployPhase::HashingBinary || p.phase == DeployPhase::HashingService {
                let data = if p.phase == DeployPhase::HashingBinary {
                    p.binary
                } else {
                    service
                };
                let digest = hex::hex_text(hex::sha256(data));
                let output = events.last().0->Output_0;
                assert(remote_hash(output) == Some(digest));
                assert(output == Ok::<(i32, Seq<char>), Seq<char>>((0i32, digest)));
            }
            if stage(q.phase) == 1 {
                assert(shows_file(p.binary, BINARY_PATH@, 0o755, acts, events, n));
            }
            if stage(q.phase) == 3 {
                assert(shows_file(service, SERVICE_PATH@, 0o644, acts, events, n));
            }
            assert(acts[n - 1] == acts[n - 1]);
        }
    }
}

/// An installation that succeeds has put everything in place: the server has the
/// relay's program and the description of the service, for it printed their digests
/// or they were sent to it; and the directory of keys was made, the firewall opened,
/// and the service enabled and started.
pub proof fn lemma_success_means_installed(start: Progress, events: Seq<(Event, Seq<char>)>)
    requires
        is_start(start),
        all_fit(start, events),
        events.len() > 0,
        acts_for(start, events).last() is Finished,
    ensures
        ({
            let acts = acts_for(start, events);
            let service = utf8::encode_utf8(SYSTEMD_SERVICE@);
            &&& events[0].0 matches Event::Binary(Ok(program))
            &&& has_file(program, BINARY_PATH@, 0o755, acts, events)
            &&& has_file(service, SERVICE_PATH@, 0o644, acts, events)
            &&& has_run(MKDIR_COMMAND@, acts, events)
            &&& has_run(FIREWALL_COMMAND@, acts, events)
            &&& has_run(ENABLE_COMMAND@, acts, events)
            &&& has_run(RESTART_COMMAND@, acts, events) || has_run(START_COMMAND@, acts, events)
        }),
{
    let init = events.drop_last();
    let acts = acts_for(start, events);
    lemma_reached(start, init);
    lemma_awaits(start, init);
    lemma_awaits(start, events);
    let p = progress_after(start, init);
    assert(p.phase == DeployPhase::Checking);
    assert(acts.drop_last() =~= acts_for(start, init));
    lemma_reached_stays(6, p.binary, acts, events);
    assert(events[0] == init[0]);
}

/// Each act that takes a while is announced, last of what is reported with it, and
/// nothing is reported with the others.
pub proof fn lemma_acts_are_announced(p: Progress, event: Event, fresh: Seq<char>)
    requires
        fits(p.phase, event),
    ensures
        ({
            let step = step_for(p, event, fresh);
            let said = if step.notes.len() > 0 {
                step.notes.last()
            } else {
                Seq::empty()
            };
            match step.act {
                Act::Connect { host, port, .. } => said == "Connecting to "@ + host + ":"@
                    + text::decimal(port as nat) + "..."@,
                Act::Upload { path, .. } => {
                    &&& path == BINARY_PATH@ ==> said == "Uploading relay binary..."@
                    &&& path == KEY_PATH@ ==> said == "Generating tunnel key..."@
                    &&& path == SERVICE_PATH@ ==> said == "Installing systemd service..."@
                },
                Act::Finished { relay_addr, .. } => said == "Relay deployed successfully at "@
                    + relay_addr,
                Act::Failed(_) => step.notes.len() == 0,
                Act::Pause => step.notes.len() == 0,
                Act::ReadBinary => false,
                Act::Exec(command) => {
                    &&& command == hash_command(BINARY_PATH@) ==> said
                        == "Checking relay binary..."@
                    &&& command == STOP_COMMAND@ ==> said == "Stopping existing service..."@
                    &&& command == MKDIR_COMMAND@ ==> said == "Setting up directories..."@
                    &&& command == hash_command(SERVICE_PATH@) ==> said
                        == "Checking systemd service..."@
                    &&& command == FIREWALL_COMMAND@ ==> said == "Configuring firewall..."@
                    &&& command == RESTART_COMMAND@ ==> said
                        == "Restarting relay service (config changed)..."@
                    &&& command == START_COMMAND@ ==> said == "Ensuring service is running..."@
                    &&& command == SHOW_KEY_COMMAND@ || command == RELOAD_COMMAND@ || command
                        == ENABLE_COMMAND@ || command == CHECK_COMMAND@ || command
                        == JOURNAL_COMMAND@ ==> step.notes.len() == 0
                },
            }
        }),
{
    lemma_command_lengths();
}

/// What came of an act is reported before the next one is announced: that the program
/// was found, the server reached, a file sent, or that it was not sent as the server
/// has it.
pub proof fn lemma_outcomes_are_reported(p: Progress, event: Event, fresh: Seq<char>)
    requires
        fits(p.phase, event),
    ensures
        ({
            let step = step_for(p, event, fresh);
            &&& step.notes.len() <= 2
            &&& step.notes.len() == 2 ==> match step.act {
                Act::Connect { .. } => event matches Event::Binary(Ok(data)) && step.notes[0]
                    == "Binary loaded ("@ + text::decimal(data.len()) + " bytes)"@,
                Act::Exec(command) => {
                    &&& command == hash_command(BINARY_PATH@) ==> step.notes[0]
                        == "SSH connected"@
                    &&& command == MKDIR_COMMAND@ ==> step.notes[0] == if event is Uploaded {
                        "Binary uploaded"@
                    } else {
                        "Binary unchanged, skipping upload"@
                    }
                    &&& command == hash_command(SERVICE_PATH@) ==> step.notes[0]
                        == if event is Uploaded {
                        "Key uploaded"@
                    } else {
                        "Reusing existing key"@
                    }
                    &&& command == FIREWALL_COMMAND@ ==> step.notes[0]
                        == "Service file unchanged, skipping"@
                },
                _ => false,
            }
            &&& step.notes.len() == 2 <==> {
                ||| step.act is Connect
                ||| step.act == Act::Exec(hash_command(BINARY_PATH@))
                ||| step.act == Act::Exec(MKDIR_COMMAND@)
                ||| step.act == Act::Exec(hash_command(SERVICE_PATH@))
                ||| step.act == Act::Exec(FIREWALL_COMMAND@) && p.phase
                    == DeployPhase::HashingService
            }
        }),
{
    lemma_command_lengths();
}

/// The server is reached at the port that the user gives, or at the usual one.
pub proof fn lemma_port_of_server(deployment: Deployment)
    ensures
        deployment.config.port matches Some(port) ==> deployment@.port == port,
        deployment.config.port is None ==> deployment@.port == 22,
{
}

/// Line ends and other white space around what a command prints make no difference.
pub proof fn lemma_space_around_output(exit: i32, printed: String, other: String, c: char)
    requires
        text::is_white(c),
        other@ == printed@.push(c) || other@ == seq![c] + printed@,
    ensures
        DeployEvent::Output(Ok((exit, other)))@ == DeployEvent::Output(Ok((exit, printed)))@,
{
    text::lemma_space_around(printed@, c, c);
}

} // verus!
