use crate::errors::MergeError;
use crate::level::Level;
use vstd::prelude::*;

verus! {

/// The settings document: the full in-memory configuration value tree.
#[derive(Clone, Debug)]
pub struct Config {
    /// Options of the wrapped server process.
    pub minecraft: Minecraft,
    /// Options of the messaging bridge; absence disables the feature entirely.
    pub discord: Option<Discord>,
    /// Logging levels of the three streams.
    pub logging: Logging,
}

/// Options of the wrapped server process.
#[derive(Clone, Debug)]
pub struct Minecraft {
    /// Path of the server executable.
    pub server_path: String,
    /// Memory to allocate for the server, in megabytes.
    pub memory: u16,
    /// Extra flags handed to the virtual machine, if any.
    pub jvm_flags: Option<String>,
    /// Whether the server starts as soon as the wrapper does.
    pub auto_start: bool,
}

/// Options of the messaging bridge.
#[derive(Clone, Debug)]
pub struct Discord {
    /// Whether messages are bridged at all.
    pub enable_bridge: bool,
    /// Credential the bridge authenticates with.
    pub token: String,
    /// Channel the bridge posts into.
    pub channel_id: u64,
    /// Whether the bridge publishes presence updates.
    pub update_status: bool,
    /// Users allowed to issue administrative commands.
    pub admin_id_list: Vec<u64>,
    /// Prefix that marks a chat message as a command.
    pub command_prefix: String,
}

/// Logging levels of the three streams.
#[derive(Clone, Copy, Debug)]
pub struct Logging {
    /// Level for dependencies of the wrapper.
    pub all: Level,
    /// Level for the wrapper itself.
    pub self_level: Level,
    /// Level for the bridge.
    pub discord: Level,
}

/// Mathematical value of a `Config`.
pub ghost struct ConfigView {
    pub minecraft: MinecraftView,
    pub discord: Option<DiscordView>,
    pub logging: LoggingView,
}

/// Mathematical value of a `Minecraft` section.
pub ghost struct MinecraftView {
    pub server_path: Seq<char>,
    pub memory: u16,
    pub jvm_flags: Option<Seq<char>>,
    pub auto_start: bool,
}

/// Mathematical value of a `Discord` section.
pub ghost struct DiscordView {
    pub enable_bridge: bool,
    pub token: Seq<char>,
    pub channel_id: u64,
    pub update_status: bool,
    pub admin_id_list: Seq<u64>,
    pub command_prefix: Seq<char>,
}

/// Mathematical value of a `Logging` section.
pub ghost struct LoggingView {
    pub all: Level,
    pub self_level: Level,
    pub discord: Level,
}

impl View for Minecraft {
    type V = MinecraftView;

    open spec fn view(&self) -> MinecraftView {
        MinecraftView {
            server_path: self.server_path@,
            memory: self.memory,
            jvm_flags: match self.jvm_flags {
                Some(f) => Some(f@),
                None => None,
            },
            auto_start: self.auto_start,
        }
    }
}

impl View for Discord {
    type V = DiscordView;

    open spec fn view(&self) -> DiscordView {
        DiscordView {
            enable_bridge: self.enable_bridge,
            token: self.token@,
            channel_id: self.channel_id,
            update_status: self.update_status,
            admin_id_list: self.admin_id_list@,
            command_prefix: self.command_prefix@,
        }
    }
}

impl View for Logging {
    type V = LoggingView;

    open spec fn view(&self) -> LoggingView {
        LoggingView { all: self.all, self_level: self.self_level, discord: self.discord }
    }
}

impl View for Config {
    type V = ConfigView;

    open spec fn view(&self) -> ConfigView {
        ConfigView {
            minecraft: self.minecraft@,
            discord: match self.discord {
                Some(d) => Some(d@),
                None => None,
            },
            logging: self.logging@,
        }
    }
}

/// The document `Config::default()` yields.
pub open spec fn spec_default_config() -> ConfigView {
    ConfigView {
        minecraft: MinecraftView {
            server_path: "./server.jar"@,
            memory: 1024,
            jvm_flags: None,
            auto_start: false,
        },
        discord: Some(
            DiscordView {
                enable_bridge: true,
                token: ""@,
                channel_id: 0,
                update_status: true,
                admin_id_list: Seq::empty(),
                command_prefix: "!mc "@,
            },
        ),
        logging: LoggingView {
            all: Level::Warn,
            self_level: Level::Debug,
            discord: Level::Info,
        },
    }
}

impl Default for Minecraft {
    /// A server at `./server.jar` with 1024 megabytes, no extra flags,
    /// not started automatically.
    fn default() -> (m: Self)
        ensures
            m@ == spec_default_config().minecraft,
    {
        Minecraft {
            server_path: "./server.jar".to_owned(),
            memory: 1024,
            jvm_flags: None,
            auto_start: false,
        }
    }
}

impl Default for Discord {
    /// A bridge that is enabled but points at an empty credential and
    /// channel 0; the placeholders make the keys visible in a stored file.
    fn default() -> (d: Self)
        ensures
            Some(d@) == spec_default_config().discord,
    {
        Discord {
            enable_bridge: true,
            token: "".to_owned(),
            channel_id: 0,
            update_status: true,
            admin_id_list: Vec::new(),
            command_prefix: "!mc ".to_owned(),
        }
    }
}

impl Default for Logging {
    /// Dependencies at `Warn`, the wrapper itself at `Debug`, the bridge at `Info`.
    fn default() -> (l: Self)
        ensures
            l@ == spec_default_config().logging,
    {
        Logging { all: Level::Warn, self_level: Level::Debug, discord: Level::Info }
    }
}

impl Default for Config {
    /// The document materialized on first run: default sections throughout,
    /// with the bridge section present (so its keys appear in the stored file)
    /// though pointing at placeholder credentials.
    fn default() -> (c: Self)
        ensures
            c@ == spec_default_config(),
    {
        Config {
            minecraft: Minecraft::default(),
            discord: Some(Discord::default()),
            logging: Logging::default(),
        }
    }
}

/// Overrides handed in on the command line; opaque to everything but the merger.
#[derive(Clone, Debug)]
pub struct Opt {
    /// Ask for the messaging bridge to be switched on.
    pub bridge_to_discord: bool,
    /// Replace the path of the server executable.
    pub server_path: Option<String>,
}

/// Mathematical value of an `Opt`.
pub ghost struct OptView {
    pub bridge_to_discord: bool,
    pub server_path: Option<Seq<char>>,
}

impl View for Opt {
    type V = OptView;

    open spec fn view(&self) -> OptView {
        OptView {
            bridge_to_discord: self.bridge_to_discord,
            server_path: match self.server_path {
                Some(p) => Some(p@),
                None => None,
            },
        }
    }
}

/// The merge needs a bridge section that the document does not have.
pub open spec fn merge_missing_prerequisite(c: ConfigView, a: OptView) -> bool {
    a.bridge_to_discord && c.discord is None
}

/// The document after a successful merge: the bridge is switched on where
/// asked, the executable path replaced where given, and nothing else moves.
pub open spec fn spec_merge(c: ConfigView, a: OptView) -> ConfigView {
    ConfigView {
        minecraft: MinecraftView {
            server_path: match a.server_path {
                Some(p) => p,
                None => c.minecraft.server_path,
            },
            ..c.minecraft
        },
        discord: match c.discord {
            Some(d) => Some(
                DiscordView { enable_bridge: d.enable_bridge || a.bridge_to_discord, ..d },
            ),
            None => None,
        },
        logging: c.logging,
    }
}

impl Config {
    /// Merge command-line overrides into this document, in place.
    ///
    /// Asking for the bridge while the document has no bridge section fails
    /// with `MissingPrerequisite` and leaves the document untouched: the merge
    /// never invents a bridge section with empty credentials.
    pub fn merge_in_args(&mut self, args: Opt) -> (r: Result<(), MergeError>)
        ensures
            match r {
                Ok(()) => !merge_missing_prerequisite(old(self)@, args@) && final(self)@
                    == spec_merge(old(self)@, args@),
                Err(e) => merge_missing_prerequisite(old(self)@, args@) && e
                    == MergeError::MissingPrerequisite && final(self)@ == old(self)@,
            },
    {
        if args.bridge_to_discord {
            let d_opt = self.discord.take();
            match d_opt {
                None => {
                    return Err(MergeError::MissingPrerequisite);
                },
                Some(mut d) => {
                    d.enable_bridge = true;
                    self.discord = Some(d);
                },
            }
        }
        if let Some(p) = args.server_path {
            self.minecraft.server_path = p;
        }
        Ok(())
    }
}

} // verus!
