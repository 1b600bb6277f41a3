//! The client's own settings and the part of the process environment that
//! the client reads.

use crate::text::{opt_text, pair_views, same_text, texts};
use vstd::prelude::*;

verus! {

/// The environment variables that the client reads.
#[allow(non_snake_case)]
#[derive(Debug)]
pub struct Env {
    pub AWS_PROFILE: Option<String>,
    pub ACCESS_KEY: Option<String>,
    pub SECRET_KEY: Option<String>,
    pub HOME: Option<String>,
}

/// The texts of an `Env`.
pub struct EnvView {
    pub profile: Option<Seq<char>>,
    pub access_key: Option<Seq<char>>,
    pub secret_key: Option<Seq<char>>,
    pub home: Option<Seq<char>>,
}

impl View for Env {
    type V = EnvView;

    open spec fn view(&self) -> EnvView {
        EnvView {
            profile: opt_text(self.AWS_PROFILE),
            access_key: opt_text(self.ACCESS_KEY),
            secret_key: opt_text(self.SECRET_KEY),
            home: opt_text(self.HOME),
        }
    }
}

/// The value of the last variable named `key` among `vars`, if there is one.
pub open spec fn last_value(vars: Seq<(Seq<char>, Seq<char>)>, key: Seq<char>) -> Option<
    Seq<char>,
>
    decreases vars.len(),
{
    if vars.len() == 0 {
        None
    } else if vars.last().0 == key {
        Some(vars.last().1)
    } else {
        last_value(vars.drop_last(), key)
    }
}

/// The environment that the variables `vars` describe.
pub open spec fn env_of(vars: Seq<(Seq<char>, Seq<char>)>) -> EnvView {
    EnvView {
        profile: last_value(vars, "AWS_PROFILE"@),
        access_key: last_value(vars, "AWS_ACCESS_KEY_ID"@),
        secret_key: last_value(vars, "AWS_SECRET_ACCESS_KEY"@),
        home: last_value(vars, "HOME"@),
    }
}

/// Picks the variables that the client reads out of the process environment
/// `vars`, given as pairs of name and value.
pub fn get_env(vars: &Vec<(String, String)>) -> (env: Env)
    ensures
        env@ == env_of(pair_views(vars@)),
{
    let mut profile: Option<String> = None;
    let mut access_key: Option<String> = None;
    let mut secret_key: Option<String> = None;
    let mut home: Option<String> = None;
    let mut i: usize = 0;
    let ghost all = pair_views(vars@);
    assert(all.take(0) =~= Seq::<(Seq<char>, Seq<char>)>::empty());
    while i < vars.len()
        invariant
            i <= vars.len(),
            all == pair_views(vars@),
            opt_text(profile) == last_value(all.take(i as int), "AWS_PROFILE"@),
            opt_text(access_key) == last_value(all.take(i as int), "AWS_ACCESS_KEY_ID"@),
            opt_text(secret_key) == last_value(all.take(i as int), "AWS_SECRET_ACCESS_KEY"@),
            opt_text(home) == last_value(all.take(i as int), "HOME"@),
        decreases vars.len() - i,
    {
        let key = vars[i].0.as_str();
        proof {
            assert(all.take(i as int + 1).drop_last() =~= all.take(i as int));
            assert(all.take(i as int + 1).last() == (vars@[i as int].0@, vars@[i as int].1@));
            reveal_strlit("AWS_PROFILE");
            reveal_strlit("AWS_ACCESS_KEY_ID");
            reveal_strlit("AWS_SECRET_ACCESS_KEY");
            reveal_strlit("HOME");
            assert("AWS_PROFILE"@.len() == 11);
            assert("AWS_ACCESS_KEY_ID"@.len() == 17);
            assert("AWS_SECRET_ACCESS_KEY"@.len() == 21);
            assert("HOME"@.len() == 4);
        }
        if same_text(key, "AWS_PROFILE") {
            profile = Some(vars[i].1.clone());
        } else if same_text(key, "AWS_ACCESS_KEY_ID") {
            access_key = Some(vars[i].1.clone());
        } else if same_text(key, "AWS_SECRET_ACCESS_KEY") {
            secret_key = Some(vars[i].1.clone());
        } else if same_text(key, "HOME") {
            home = Some(vars[i].1.clone());
        }
        i = i + 1;
    }
    assert(all.take(vars.len() as int) =~= all);
    Env { AWS_PROFILE: profile, ACCESS_KEY: access_key, SECRET_KEY: secret_key, HOME: home }
}

/// The directory that holds the settings file: `.config/cloud-curl` under
/// the home directory, or the system-wide directory where no home is known.
pub open spec fn settings_dir_of(home: Option<Seq<char>>) -> Seq<char> {
    match home {
        Some(h) => h + "/"@ + ".config/cloud-curl"@,
        None => "/etc/cloud-curl/"@,
    }
}

/// The directory that holds the settings file.
pub fn settings_dir(home: &Option<String>) -> (dir: String)
    ensures
        dir@ == settings_dir_of(opt_text(*home)),
{
    match home {
        Some(h) => {
            let mut dir = h.clone();
            dir.append("/");
            dir.append(".config/cloud-curl");
            dir
        },
        None => "/etc/cloud-curl/".to_owned(),
    }
}

/// The name of the settings file within its directory.
pub fn settings_file_name() -> (name: String)
    ensures
        name@ == "config.yml"@,
{
    "config.yml".to_owned()
}

/// Which settings `config get` shall print.
#[derive(Clone, Copy, Debug)]
pub struct SettingsFlags {
    pub endpoint: bool,
    pub region: bool,
}

/// The client's settings.
#[derive(Debug)]
pub struct Settings {
    pub endpoint: Option<String>,
    pub region: Option<String>,
}

/// The texts of a `Settings`.
pub struct SettingsView {
    pub endpoint: Option<Seq<char>>,
    pub region: Option<Seq<char>>,
}

impl View for Settings {
    type V = SettingsView;

    open spec fn view(&self) -> SettingsView {
        SettingsView { endpoint: opt_text(self.endpoint), region: opt_text(self.region) }
    }
}

/// The text of an optional setting: empty where it is not set.
pub open spec fn shown(value: Option<Seq<char>>) -> Seq<char> {
    match value {
        Some(v) => v,
        None => Seq::empty(),
    }
}

/// The two lines that show all settings.
pub open spec fn rendered(s: SettingsView) -> Seq<char> {
    "endpoint: "@ + shown(s.endpoint) + "\n"@ + "region: "@ + shown(s.region)
}

/// What `config get` prints, line by line: the settings that the flags
/// name, or all of them where no flag is set.
pub open spec fn output_of(s: SettingsView, flags: SettingsFlags) -> Seq<Seq<char>> {
    let first = if flags.endpoint {
        seq!["endpoint: "@ + shown(s.endpoint)]
    } else {
        Seq::empty()
    };
    let second = if flags.region {
        seq!["region: "@ + shown(s.region)]
    } else {
        Seq::empty()
    };
    let rest = if !(flags.region || flags.endpoint) {
        seq![rendered(s)]
    } else {
        Seq::empty()
    };
    first + second + rest
}

/// The settings `old` with each setting that `new` has written over it.
pub open spec fn merged(old: SettingsView, new: SettingsView) -> SettingsView {
    SettingsView {
        endpoint: if new.endpoint is Some {
            new.endpoint
        } else {
            old.endpoint
        },
        region: if new.region is Some {
            new.region
        } else {
            old.region
        },
    }
}

/// Appends an optional setting to `line`.
fn append_shown(line: &mut String, value: &Option<String>)
    ensures
        final(line)@ == old(line)@ + shown(opt_text(*value)),
{
    match value {
        Some(v) => {
            line.append(v.as_str());
        },
        None => {
            assert(line@ + Seq::<char>::empty() =~= line@);
        },
    }
}

impl Default for Settings {
    fn default() -> (s: Settings)
        ensures
            s.endpoint is None,
            s.region is None,
    {
        Settings { endpoint: None, region: None }
    }
}

impl Settings {
    /// The two lines that show all settings.
    pub fn render(&self) -> (text: String)
        ensures
            text@ == rendered(self@),
    {
        let mut text = "endpoint: ".to_owned();
        append_shown(&mut text, &self.endpoint);
        text.append("\n");
        text.append("region: ");
        append_shown(&mut text, &self.region);
        text
    }

    /// What `config get` prints for `flags`, line by line.
    pub fn output_fields(&self, flags: SettingsFlags) -> (out: Vec<String>)
        ensures
            texts(out@) == output_of(self@, flags),
    {
        let mut out: Vec<String> = Vec::new();
        assert(texts(out@) =~= Seq::<Seq<char>>::empty());
        if flags.endpoint {
            let mut line = "endpoint: ".to_owned();
            append_shown(&mut line, &self.endpoint);
            assert(texts(out@.push(line)) =~= texts(out@) + seq![line@]);
            out.push(line);
        }
        if flags.region {
            let mut line = "region: ".to_owned();
            append_shown(&mut line, &self.region);
            assert(texts(out@.push(line)) =~= texts(out@) + seq![line@]);
            out.push(line);
        }
        if !(flags.region || flags.endpoint) {
            let line = self.render();
            assert(texts(out@.push(line)) =~= texts(out@) + seq![line@]);
            out.push(line);
        }
        assert(texts(out@) =~= output_of(self@, flags));
        out
    }

    /// Writes each setting that `new_settings` has over the setting of
    /// `self`; the others stay.
    pub fn merge(&mut self, new_settings: Settings)
        ensures
            final(self)@ == merged(old(self)@, new_settings@),
    {
        if new_settings.endpoint.is_some() {
            self.endpoint = new_settings.endpoint;
        }
        if new_settings.region.is_some() {
            self.region = new_settings.region;
        }
    }
}

/// The subcommands of `config`.
#[derive(Debug)]
pub enum Commands {
    /// Print settings.
    Get(SettingsFlags),
    /// Change settings.
    Assign(Settings),
}

/// What is left to do once a `config` subcommand has been decided on.
#[derive(Debug)]
pub enum Action {
    /// Print these lines.
    Print(Vec<String>),
    /// Write these settings to the settings file.
    Write(Settings),
}

/// Decides what a `config` subcommand does with the stored `settings`:
/// `get` prints the fields asked for, `set` stores the settings merged with
/// the new ones.
pub fn handle(settings: Settings, commands: Commands) -> (action: Action)
    ensures
        match commands {
            Commands::Get(flags) => action matches Action::Print(out) && texts(out@) == output_of(
                settings@,
                flags,
            ),
            Commands::Assign(args) => action matches Action::Write(s) && s@ == merged(
                settings@,
                args@,
            ),
        },
{
    let mut settings = settings;
    match commands {
        Commands::Get(flags) => Action::Print(settings.output_fields(flags)),
        Commands::Assign(args) => {
            settings.merge(args);
            Action::Write(settings)
        },
    }
}

} // verus!
