//! How the commands of an installation, the paths that it writes to and the
//! description of the service fit together.

use vstd::prelude::*;
use crate::deploy;

verus! {

/// The directory of keys.
pub open spec fn keys_dir() -> Seq<char> {
    "/etc/aion2-relay/keys"@
}

/// The name of the service.
pub open spec fn service_name() -> Seq<char> {
    "aion2-relay"@
}

/// What makes a command do without what it writes as an error, and end well.
pub open spec fn in_any_case() -> Seq<char> {
    " 2>/dev/null || true"@
}

/// The directory that is made is the one that the key is sent to, and the key that is
/// shown is the one that is sent.
pub proof fn lemma_key_commands_fit()
    ensures
        deploy::KEY_PATH@ == keys_dir() + "/app.key"@,
        deploy::MKDIR_COMMAND@ == "mkdir -p "@ + keys_dir() + " && chmod 700 "@ + keys_dir(),
        deploy::SHOW_KEY_COMMAND@ == "cat "@ + deploy::KEY_PATH@ + " 2>/dev/null || echo ''"@,
{
    reveal_strlit("/etc/aion2-relay/keys");
    reveal_strlit("/app.key");
    reveal_strlit("mkdir -p ");
    reveal_strlit(" && chmod 700 ");
    reveal_strlit("cat ");
    reveal_strlit(" 2>/dev/null || echo ''");
    reveal_strlit("/etc/aion2-relay/keys/app.key");
    reveal_strlit("mkdir -p /etc/aion2-relay/keys && chmod 700 /etc/aion2-relay/keys");
    reveal_strlit("cat /etc/aion2-relay/keys/app.key 2>/dev/null || echo ''");
    assert(deploy::KEY_PATH@ =~= keys_dir() + "/app.key"@);
    assert(deploy::MKDIR_COMMAND@ =~= "mkdir -p "@ + keys_dir() + " && chmod 700 "@ + keys_dir());
    assert(deploy::SHOW_KEY_COMMAND@ =~= "cat "@ + deploy::KEY_PATH@
        + " 2>/dev/null || echo ''"@);
}

/// The commands about the service name the one whose description is sent; those that
/// need not succeed end well in any case.
pub proof fn lemma_service_commands_fit()
    ensures
        deploy::SERVICE_PATH@ == "/etc/systemd/system/"@ + service_name() + ".service"@,
        deploy::BINARY_PATH@ == "/usr/local/bin/"@ + service_name(),
        deploy::STOP_COMMAND@ == "systemctl stop "@ + service_name() + in_any_case(),
        deploy::ENABLE_COMMAND@ == "systemctl enable "@ + service_name() + in_any_case(),
        deploy::START_COMMAND@ == "systemctl start "@ + service_name() + in_any_case(),
        deploy::RESTART_COMMAND@ == "systemctl restart "@ + service_name(),
        deploy::CHECK_COMMAND@ == "systemctl is-active "@ + service_name(),
        deploy::JOURNAL_COMMAND@ == "journalctl -u "@ + service_name() + " -n 10 --no-pager"@
            + in_any_case(),
        deploy::RELOAD_COMMAND@ == "systemctl daemon-reload"@,
{
    lemma_paths_fit();
    lemma_starting_commands_fit();
    reveal_strlit("aion2-relay");
    reveal_strlit(" 2>/dev/null || true");
    reveal_strlit("systemctl restart ");
    reveal_strlit("systemctl is-active ");
    reveal_strlit("journalctl -u ");
    reveal_strlit(" -n 10 --no-pager");
    reveal_strlit("systemctl restart aion2-relay");
    reveal_strlit("systemctl is-active aion2-relay");
    reveal_strlit("journalctl -u aion2-relay -n 10 --no-pager 2>/dev/null || true");
    assert(deploy::RESTART_COMMAND@ =~= "systemctl restart "@ + service_name());
    assert(deploy::CHECK_COMMAND@ =~= "systemctl is-active "@ + service_name());
    assert(deploy::JOURNAL_COMMAND@ =~= "journalctl -u "@ + service_name() + " -n 10 --no-pager"@
        + in_any_case());
}

proof fn lemma_paths_fit()
    ensures
        deploy::SERVICE_PATH@ == "/etc/systemd/system/"@ + service_name() + ".service"@,
        deploy::BINARY_PATH@ == "/usr/local/bin/"@ + service_name(),
{
    reveal_strlit("aion2-relay");
    reveal_strlit("/etc/systemd/system/");
    reveal_strlit(".service");
    reveal_strlit("/usr/local/bin/");
    reveal_strlit("/etc/systemd/system/aion2-relay.service");
    reveal_strlit("/usr/local/bin/aion2-relay");
    assert(deploy::SERVICE_PATH@ =~= "/etc/systemd/system/"@ + service_name() + ".service"@);
    assert(deploy::BINARY_PATH@ =~= "/usr/local/bin/"@ + service_name());
}

proof fn lemma_starting_commands_fit()
    ensures
        deploy::STOP_COMMAND@ == "systemctl stop "@ + service_name() + in_any_case(),
        deploy::ENABLE_COMMAND@ == "systemctl enable "@ + service_name() + in_any_case(),
        deploy::START_COMMAND@ == "systemctl start "@ + service_name() + in_any_case(),
{
    reveal_strlit("aion2-relay");
    reveal_strlit(" 2>/dev/null || true");
    reveal_strlit("systemctl stop ");
    reveal_strlit("systemctl enable ");
    reveal_strlit("systemctl start ");
    reveal_strlit("systemctl stop aion2-relay 2>/dev/null || true");
    reveal_strlit("systemctl enable aion2-relay 2>/dev/null || true");
    reveal_strlit("systemctl start aion2-relay 2>/dev/null || true");
    assert(deploy::STOP_COMMAND@ =~= "systemctl stop "@ + service_name() + in_any_case());
    assert(deploy::ENABLE_COMMAND@ =~= "systemctl enable "@ + service_name() + in_any_case());
    assert(deploy::START_COMMAND@ =~= "systemctl start "@ + service_name() + in_any_case());
}

/// What opens the relay's port to one kind of traffic, unless it is open.
pub open spec fn opening(kind: Seq<char>) -> Seq<char> {
    "iptables -C INPUT -p "@ + kind + " --dport 443 -j ACCEPT 2>/dev/null || iptables -A INPUT -p "@
        + kind + " --dport 443 -j ACCEPT 2>/dev/null; "@
}

/// The service runs the program that is sent, on the directory of keys, and listens at
/// the port that the user is given; it is run again whenever it ends, may not change
/// the system, and comes up with it.
#[verifier::rlimit(60)]
pub proof fn lemma_service_fits()
    ensures
        deploy::SYSTEMD_SERVICE@ == service_head() + "ExecStart="@ + deploy::BINARY_PATH@ + " "@
            + keys_dir() + "\nEnvironment=LISTEN_ADDR=0.0.0.0"@ + ":443"@ + service_tail(),
{
    reveal_strlit("[Unit]\nDescription=Aion2 Relay Daemon\nAfter=network.target\n\n[Service]\nType=simple\n");
    reveal_strlit("\nEnvironment=RUST_LOG=info\nRestart=always\nRestartSec=3\nNoNewPrivileges=true\nProtectSystem=strict\nProtectHome=true\nReadOnlyPaths=/\nReadWritePaths=/var/log\nPrivateTmp=true\n\n[Install]\nWantedBy=multi-user.target\n");
    reveal_strlit("ExecStart=");
    reveal_strlit(" ");
    reveal_strlit("\nEnvironment=LISTEN_ADDR=0.0.0.0");
    reveal_strlit(":443");
    reveal_strlit("/etc/aion2-relay/keys");
    reveal_strlit("/usr/local/bin/aion2-relay");
    reveal_strlit("[Unit]
Description=Aion2 Relay Daemon
After=network.target

[Service]
Type=simple
ExecStart=/usr/local/bin/aion2-relay /etc/aion2-relay/keys
Environment=LISTEN_ADDR=0.0.0.0:443
Environment=RUST_LOG=info
Restart=always
RestartSec=3
NoNewPrivileges=true
ProtectSystem=strict
ProtectHome=true
ReadOnlyPaths=/
ReadWritePaths=/var/log
PrivateTmp=true

[Install]
WantedBy=multi-user.target
");
    assert(deploy::SYSTEMD_SERVICE@ =~= service_head() + "ExecStart="@ + deploy::BINARY_PATH@ + " "@
        + keys_dir() + "\nEnvironment=LISTEN_ADDR=0.0.0.0"@ + ":443"@ + service_tail());
}

/// What the description of the service says before what it runs.
pub open spec fn service_head() -> Seq<char> {
    "[Unit]\nDescription=Aion2 Relay Daemon\nAfter=network.target\n\n[Service]\nType=simple\n"@
}

/// What the description of the service says behind where it listens.
pub open spec fn service_tail() -> Seq<char> {
    "\nEnvironment=RUST_LOG=info\nRestart=always\nRestartSec=3\nNoNewPrivileges=true\nProtectSystem=strict\nProtectHome=true\nReadOnlyPaths=/\nReadWritePaths=/var/log\nPrivateTmp=true\n\n[Install]\nWantedBy=multi-user.target\n"@
}

/// The firewall is opened to datagrams and to streams alike.
#[verifier::rlimit(60)]
pub proof fn lemma_firewall_fits()
    ensures
        deploy::FIREWALL_COMMAND@
            == "command -v ufw >/dev/null 2>&1 && ufw allow 443/udp 2>/dev/null && ufw allow 443/tcp 2>/dev/null; "@
            + opening("udp"@) + opening("tcp"@) + "true"@,
{
    reveal_strlit("udp");
    reveal_strlit("tcp");
    reveal_strlit("true");
    reveal_strlit("iptables -C INPUT -p ");
    reveal_strlit(" --dport 443 -j ACCEPT 2>/dev/null || iptables -A INPUT -p ");
    reveal_strlit(" --dport 443 -j ACCEPT 2>/dev/null; ");
    reveal_strlit(
        "command -v ufw >/dev/null 2>&1 && ufw allow 443/udp 2>/dev/null && ufw allow 443/tcp 2>/dev/null; ",
    );
    reveal_strlit(
        "command -v ufw >/dev/null 2>&1 && ufw allow 443/udp 2>/dev/null && ufw allow 443/tcp 2>/dev/null; \
         iptables -C INPUT -p udp --dport 443 -j ACCEPT 2>/dev/null || \
         iptables -A INPUT -p udp --dport 443 -j ACCEPT 2>/dev/null; \
         iptables -C INPUT -p tcp --dport 443 -j ACCEPT 2>/dev/null || \
         iptables -A INPUT -p tcp --dport 443 -j ACCEPT 2>/dev/null; true",
    );
    assert(deploy::FIREWALL_COMMAND@
        =~= "command -v ufw >/dev/null 2>&1 && ufw allow 443/udp 2>/dev/null && ufw allow 443/tcp 2>/dev/null; "@
        + opening("udp"@) + opening("tcp"@) + "true"@);
}

} // verus!
