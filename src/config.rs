//! The settings each action needs, and the builders that gather them from the configuration
//! file and the command line and check that nothing required is missing.
use vstd::prelude::*;

use crate::cli::{Args, CliOptions};
use crate::error::{Error, ErrorKind};

verus! {

/// The actions the tool can run.
#[derive(Clone, Copy, Debug, PartialEq, Eq, Structural, PartialOrd, Ord)]
pub enum Action {
    Hello,
    Survey,
    Ping,
    Upload,
    Wipe,
    Cat,
    Ls,
    Bulk,
    Factors,
    TraitGeneSets,
}

pub open spec fn action_name(a: Action) -> Seq<char> {
    match a {
        Action::Hello => "hello"@,
        Action::Survey => "survey"@,
        Action::Ping => "ping"@,
        Action::Upload => "upload"@,
        Action::Wipe => "wipe"@,
        Action::Cat => "cat"@,
        Action::Ls => "ls"@,
        Action::Bulk => "bulk"@,
        Action::Factors => "factors"@,
        Action::TraitGeneSets => "pgs"@,
    }
}

pub open spec fn action_about(a: Action) -> Seq<char> {
    match a {
        Action::Hello => "Prints some config information."@,
        Action::Survey => "Surveys the data."@,
        Action::Ping => "Pings the Neo4j server."@,
        Action::Upload => "Uploads data to the Neo4j server."@,
        Action::Wipe => "Deletes all data on the Neo4j server."@,
        Action::Cat => "Prints the content of the input file."@,
        Action::Ls => "Lists the content of a directory."@,
        Action::Bulk => "Creates pheno/genes/gene sets bulk files for PIGEAN."@,
        Action::Factors => "Creates factors/genes/gene sets bulk files for PIGEAN."@,
        Action::TraitGeneSets => "Creates trait-gene sets bulk files for PIGEAN."@,
    }
}

/// All actions, in their listing order.
pub open spec fn all_actions() -> Seq<Action> {
    seq![
        Action::Hello,
        Action::Survey,
        Action::Ping,
        Action::Upload,
        Action::Wipe,
        Action::Cat,
        Action::Ls,
        Action::Bulk,
        Action::Factors,
        Action::TraitGeneSets,
    ]
}

/// The names joined with ", " between consecutive ones.
pub open spec fn comma_list(names: Seq<Seq<char>>) -> Seq<char>
    decreases names.len(),
{
    if names.len() == 0 {
        Seq::<char>::empty()
    } else if names.len() == 1 {
        names[0]
    } else {
        comma_list(names.drop_last()) + ", "@ + names.last()
    }
}

impl Action {
    /// The name the action is invoked by.
    pub fn name(&self) -> (r: &'static str)
        ensures
            r@ == action_name(*self),
    {
        match self {
            Action::Hello => "hello",
            Action::Survey => "survey",
            Action::Ping => "ping",
            Action::Upload => "upload",
            Action::Wipe => "wipe",
            Action::Cat => "cat",
            Action::Ls => "ls",
            Action::Bulk => "bulk",
            Action::Factors => "factors",
            Action::TraitGeneSets => "pgs",
        }
    }

    /// A one-line description of the action.
    pub fn about(&self) -> (r: &'static str)
        ensures
            r@ == action_about(*self),
    {
        match self {
            Action::Hello => "Prints some config information.",
            Action::Survey => "Surveys the data.",
            Action::Ping => "Pings the Neo4j server.",
            Action::Upload => "Uploads data to the Neo4j server.",
            Action::Wipe => "Deletes all data on the Neo4j server.",
            Action::Cat => "Prints the content of the input file.",
            Action::Ls => "Lists the content of a directory.",
            Action::Bulk => "Creates pheno/genes/gene sets bulk files for PIGEAN.",
            Action::Factors => "Creates factors/genes/gene sets bulk files for PIGEAN.",
            Action::TraitGeneSets => "Creates trait-gene sets bulk files for PIGEAN.",
        }
    }

    /// The action with the given name.
    pub fn from_name(name: &str) -> (r: Result<Action, Error>)
        ensures
            r matches Ok(a) ==> action_name(a) == name@,
            r is Err <==> forall|a: Action| action_name(a) != name@,
            r matches Err(e) ==> e.kind == ErrorKind::Configuration,
    {
        let all = actions();
        let mut i: usize = 0;
        while i < all.len()
            invariant
                i <= all@.len(),
                all@ == all_actions(),
                forall|j: int| 0 <= j < i ==> action_name(all_actions()[j]) != name@,
            decreases all@.len() - i,
        {
            let a = all[i];
            if String::from_str(a.name()) == name.to_owned() {
                return Ok(a);
            }
            i = i + 1;
        }
        proof {
            assert forall|a: Action| action_name(a) != name@ by {
                let k: int = match a {
                    Action::Hello => 0,
                    Action::Survey => 1,
                    Action::Ping => 2,
                    Action::Upload => 3,
                    Action::Wipe => 4,
                    Action::Cat => 5,
                    Action::Ls => 6,
                    Action::Bulk => 7,
                    Action::Factors => 8,
                    Action::TraitGeneSets => 9,
                };
                assert(all_actions()[k] == a);
            }
        }
        let mut message = String::from_str("Unknown action: ");
        message.append(name);
        Err(Error::new(ErrorKind::Configuration, message))
    }
}

/// All actions, in their listing order.
pub fn actions() -> (r: Vec<Action>)
    ensures
        r@ == all_actions(),
{
    let r = vec![
        Action::Hello,
        Action::Survey,
        Action::Ping,
        Action::Upload,
        Action::Wipe,
        Action::Cat,
        Action::Ls,
        Action::Bulk,
        Action::Factors,
        Action::TraitGeneSets,
    ];
    assert(r@ =~= all_actions());
    r
}

/// The names of all actions, separated by ", ".
pub fn all_actions_list() -> (r: String)
    ensures
        r@ == comma_list(all_actions().map_values(|a: Action| action_name(a))),
{
    let all = actions();
    let ghost names = all_actions().map_values(|a: Action| action_name(a));
    let mut r = String::new();
    let mut i: usize = 0;
    while i < all.len()
        invariant
            i <= all@.len(),
            all@ == all_actions(),
            names == all_actions().map_values(|a: Action| action_name(a)),
            r@ == comma_list(names.take(i as int)),
        decreases all@.len() - i,
    {
        let ghost before = r@;
        if i > 0 {
            r.append(", ");
        }
        r.append(all[i].name());
        proof {
            let next = names.take(i + 1);
            assert(next.drop_last() =~= names.take(i as int));
            assert(next.last() == action_name(all@[i as int]));
            if i == 0 {
                assert(r@ =~= next[0]);
            }
        }
        i = i + 1;
    }
    assert(names.take(all@.len() as int) =~= names);
    r
}

/// The message of a missing setting, listing the actions.
pub fn known_subcommands() -> (r: String)
    ensures
        r@ == "Known subcommands are '"@ + comma_list(
            all_actions().map_values(|a: Action| action_name(a)),
        ) + "'."@,
{
    let mut r = String::from_str("Known subcommands are '");
    let list = all_actions_list();
    r.append(list.as_str());
    r.append("'.");
    r
}

pub struct Neo4jConfig {
    pub uri: String,
    pub user: String,
    pub password: String,
}

pub struct LocalConfig {
    pub data_dir: String,
}

pub struct ClientConfig {
    pub local_config: LocalConfig,
    pub neo4j: Neo4jConfig,
}

pub struct PigeanConfig {
    pub data_dir: String,
    pub sub_dir: String,
    pub factors_dir: String,
    pub factors_sub_dir: String,
    pub out: String,
}

/// The complete settings of one action.
pub enum ActionConfig {
    Hello(LocalConfig),
    Survey(LocalConfig),
    Ping(ClientConfig),
    Upload(ClientConfig),
    Wipe(ClientConfig),
    Cat(String),
    Ls(String),
    Bulk(PigeanConfig),
    Factors(PigeanConfig),
    TraitGeneSets(PigeanConfig),
}

pub struct Neo4jConfigBuilder {
    pub uri: Option<String>,
    pub user: Option<String>,
    pub password: Option<String>,
}

pub struct PigeanConfigBuilder {
    pub data_dir: Option<String>,
    pub sub_dir: Option<String>,
    pub factors_dir: Option<String>,
    pub factors_sub_dir: Option<String>,
}

pub struct ConfigBuilder {
    pub action: Option<Action>,
    pub data_dir: Option<String>,
    pub neo4j: Option<Neo4jConfigBuilder>,
    pub file: Option<String>,
    pub out: Option<String>,
    pub pigean: Option<PigeanConfigBuilder>,
}

fn config_error(message: &str) -> (r: Error)
    ensures
        r.kind == ErrorKind::Configuration,
        r.chain() == seq![message@],
{
    Error::new(ErrorKind::Configuration, String::from_str(message))
}

impl Neo4jConfigBuilder {
    pub fn new() -> (r: Neo4jConfigBuilder)
        ensures
            r.uri is None && r.user is None && r.password is None,
    {
        Neo4jConfigBuilder { uri: None, user: None, password: None }
    }

    pub open spec fn complete(&self) -> bool {
        self.uri is Some && self.user is Some && self.password is Some
    }

    /// The connection settings, when all three are given.
    pub fn build(self) -> (r: Result<Neo4jConfig, Error>)
        ensures
            r is Ok <==> self.complete(),
            r matches Err(e) ==> e.chain() == seq![
                if self.uri is None {
                    "No URI (neo4j/uri) specified."@
                } else if self.user is None {
                    "No user (neo4j/user) specified."@
                } else {
                    "No password (neo4j/password) specified."@
                },
            ],
            r matches Ok(c) ==> Some(c.uri) == self.uri && Some(c.user) == self.user && Some(
                c.password,
            ) == self.password,
            r matches Err(e) ==> e.kind == ErrorKind::Configuration,
    {
        let uri = match self.uri {
            Some(uri) => uri,
            None => return Err(config_error("No URI (neo4j/uri) specified.")),
        };
        let user = match self.user {
            Some(user) => user,
            None => return Err(config_error("No user (neo4j/user) specified.")),
        };
        let password = match self.password {
            Some(password) => password,
            None => return Err(config_error("No password (neo4j/password) specified.")),
        };
        Ok(Neo4jConfig { uri, user, password })
    }
}

impl PigeanConfigBuilder {
    pub fn new() -> (r: PigeanConfigBuilder)
        ensures
            r.data_dir is None && r.sub_dir is None && r.factors_dir is None
                && r.factors_sub_dir is None,
    {
        PigeanConfigBuilder { data_dir: None, sub_dir: None, factors_dir: None, factors_sub_dir: None }
    }

    pub open spec fn complete(&self) -> bool {
        self.data_dir is Some && self.sub_dir is Some && self.factors_dir is Some
            && self.factors_sub_dir is Some
    }

    /// The PIGEAN settings with output directory `out`, when all four directories are given.
    pub fn build(self, out: String) -> (r: Result<PigeanConfig, Error>)
        ensures
            r is Ok <==> self.complete(),
            r matches Err(e) ==> e.chain() == seq![
                if self.data_dir is None {
                    "No PIGEAN data directory specified."@
                } else if self.sub_dir is None {
                    "No PIGEAN sub directory specified."@
                } else if self.factors_dir is None {
                    "No PIGEAN factors directory specified."@
                } else {
                    "No PIGEAN factors sub directory specified."@
                },
            ],
            r matches Ok(c) ==> Some(c.data_dir) == self.data_dir && Some(c.sub_dir)
                == self.sub_dir && Some(c.factors_dir) == self.factors_dir && Some(
                c.factors_sub_dir,
            ) == self.factors_sub_dir && c.out == out,
            r matches Err(e) ==> e.kind == ErrorKind::Configuration,
    {
        let data_dir = match self.data_dir {
            Some(d) => d,
            None => return Err(config_error("No PIGEAN data directory specified.")),
        };
        let sub_dir = match self.sub_dir {
            Some(d) => d,
            None => return Err(config_error("No PIGEAN sub directory specified.")),
        };
        let factors_dir = match self.factors_dir {
            Some(d) => d,
            None => return Err(config_error("No PIGEAN factors directory specified.")),
        };
        let factors_sub_dir = match self.factors_sub_dir {
            Some(d) => d,
            None => return Err(config_error("No PIGEAN factors sub directory specified.")),
        };
        Ok(PigeanConfig { data_dir, sub_dir, factors_dir, factors_sub_dir, out })
    }
}

/// The error of a configuration without an action: it lists the possible ones.
pub open spec fn no_action_message() -> Seq<char> {
    "No action specified. Possible actions are "@ + comma_list(
        all_actions().map_values(|a: Action| action_name(a)),
    ) + "."@
}

/// The client settings are those the builder holds.
pub open spec fn client_matches(c: ClientConfig, b: ConfigBuilder) -> bool {
    &&& Some(c.local_config.data_dir) == b.data_dir
    &&& b.neo4j matches Some(n) && Some(c.neo4j.uri) == n.uri && Some(c.neo4j.user) == n.user
        && Some(c.neo4j.password) == n.password
}

/// The PIGEAN settings are those the builder holds.
pub open spec fn pigean_matches(c: PigeanConfig, b: ConfigBuilder) -> bool {
    &&& Some(c.out) == b.out
    &&& b.pigean matches Some(p) && Some(c.data_dir) == p.data_dir && Some(c.sub_dir) == p.sub_dir
        && Some(c.factors_dir) == p.factors_dir && Some(c.factors_sub_dir) == p.factors_sub_dir
}

/// The connection settings of a builder that may be absent.
pub fn neo4j_config(builder: Option<Neo4jConfigBuilder>) -> (r: Result<Neo4jConfig, Error>)
    ensures
        r is Ok <==> (builder matches Some(b) && b.complete()),
        r matches Ok(c) ==> builder matches Some(b) && Some(c.uri) == b.uri && Some(c.user)
            == b.user && Some(c.password) == b.password,
        r matches Err(e) ==> e.kind == ErrorKind::Configuration,
{
    match builder {
        Some(b) => b.build(),
        None => Err(config_error("No Neo4j configuration (neo4j) specified.")),
    }
}

impl ConfigBuilder {
    /// A builder with nothing set but empty connection and PIGEAN settings.
    pub fn new() -> (r: ConfigBuilder)
        ensures
            r.action is None && r.data_dir is None && r.file is None && r.out is None,
            r.neo4j matches Some(n) && n.uri is None && n.user is None && n.password is None,
            r.pigean matches Some(p) && p.data_dir is None && p.sub_dir is None
                && p.factors_dir is None && p.factors_sub_dir is None,
    {
        ConfigBuilder {
            action: None,
            data_dir: None,
            neo4j: Some(Neo4jConfigBuilder::new()),
            file: None,
            out: None,
            pigean: Some(PigeanConfigBuilder::new()),
        }
    }

    /// The connection settings, added empty when absent.
    pub fn neo4j_mut(&mut self) -> (r: &mut Neo4jConfigBuilder)
        ensures
            old(self).neo4j matches Some(n) ==> *r == n,
            old(self).neo4j is None ==> r.uri is None && r.user is None && r.password is None,
            final(self).neo4j == Some(*final(r)),
            final(self).action == old(self).action,
            final(self).data_dir == old(self).data_dir,
            final(self).file == old(self).file,
            final(self).out == old(self).out,
            final(self).pigean == old(self).pigean,
    {
        self.neo4j.get_or_insert(Neo4jConfigBuilder::new())
    }

    /// The settings of the configuration file overridden by those given on the command line.
    pub fn with_cli_options(self, cli_options: CliOptions) -> (r: ConfigBuilder)
        ensures
            r.action == (if cli_options.action is Some {
                cli_options.action
            } else {
                self.action
            }),
            r.data_dir == (if cli_options.args.data_dir is Some {
                cli_options.args.data_dir
            } else {
                self.data_dir
            }),
            r.file == (if cli_options.args.file is Some {
                cli_options.args.file
            } else {
                self.file
            }),
            r.out == (if cli_options.args.out is Some {
                cli_options.args.out
            } else {
                self.out
            }),
            r.pigean == self.pigean,
            ({
                let a = cli_options.args;
                if a.uri is None && a.user is None && a.password is None {
                    r.neo4j == self.neo4j
                } else {
                    r.neo4j matches Some(n) && {
                        let base_uri = match self.neo4j {
                            Some(b) => b.uri,
                            None => None,
                        };
                        let base_user = match self.neo4j {
                            Some(b) => b.user,
                            None => None,
                        };
                        let base_password = match self.neo4j {
                            Some(b) => b.password,
                            None => None,
                        };
                        &&& n.uri == (if a.uri is Some {
                            a.uri
                        } else {
                            base_uri
                        })
                        &&& n.user == (if a.user is Some {
                            a.user
                        } else {
                            base_user
                        })
                        &&& n.password == (if a.password is Some {
                            a.password
                        } else {
                            base_password
                        })
                    }
                }
            }),
    {
        let mut builder = self;
        let CliOptions { action, args } = cli_options;
        let Args { data_dir, uri, user, password, file, out } = args;
        if action.is_some() {
            builder.action = action;
        }
        if data_dir.is_some() {
            builder.data_dir = data_dir;
        }
        if let Some(uri) = uri {
            builder.neo4j_mut().uri = Some(uri);
        }
        if let Some(user) = user {
            builder.neo4j_mut().user = Some(user);
        }
        if let Some(password) = password {
            builder.neo4j_mut().password = Some(password);
        }
        if file.is_some() {
            builder.file = file;
        }
        if out.is_some() {
            builder.out = out;
        }
        builder
    }

    /// Whether the settings the connecting actions need are all present.
    pub open spec fn client_ready(&self) -> bool {
        self.data_dir is Some && (self.neo4j matches Some(n) && n.complete())
    }

    /// Whether the settings the PIGEAN actions need are all present.
    pub open spec fn pigean_ready(&self) -> bool {
        self.out is Some && (self.pigean matches Some(p) && p.complete())
    }

    /// The settings of the chosen action, checked for completeness.
    pub fn build(self) -> (r: Result<ActionConfig, Error>)
        ensures
            r matches Err(e) ==> e.kind == ErrorKind::Configuration,
            self.action is None ==> (r matches Err(e) && e.chain() == seq![no_action_message()]),
            self.action matches Some(a) ==> match a {
                Action::Hello | Action::Survey => (r is Ok <==> self.data_dir is Some) && (
                r matches Ok(c) ==> (match c {
                    ActionConfig::Hello(l) => a == Action::Hello && Some(l.data_dir)
                        == self.data_dir,
                    ActionConfig::Survey(l) => a == Action::Survey && Some(l.data_dir)
                        == self.data_dir,
                    _ => false,
                })),
                Action::Ping | Action::Upload | Action::Wipe => (r is Ok <==> self.client_ready())
                    && (r matches Ok(c) ==> (match c {
                    ActionConfig::Ping(cc) => a == Action::Ping && client_matches(cc, self),
                    ActionConfig::Upload(cc) => a == Action::Upload && client_matches(cc, self),
                    ActionConfig::Wipe(cc) => a == Action::Wipe && client_matches(cc, self),
                    _ => false,
                })),
                Action::Cat | Action::Ls => (r is Ok <==> self.file is Some) && (r matches Ok(
                    c,
                ) ==> (match c {
                    ActionConfig::Cat(f) => a == Action::Cat && Some(f) == self.file,
                    ActionConfig::Ls(f) => a == Action::Ls && Some(f) == self.file,
                    _ => false,
                })),
                _ => (r is Ok <==> self.pigean_ready()) && (r matches Ok(c) ==> (match c {
                    ActionConfig::Bulk(p) => a == Action::Bulk && pigean_matches(p, self),
                    ActionConfig::Factors(p) => a == Action::Factors && pigean_matches(p, self),
                    ActionConfig::TraitGeneSets(p) => a == Action::TraitGeneSets
                        && pigean_matches(p, self),
                    _ => false,
                })),
            },
    {
        let action = match self.get_action() {
            Ok(a) => a,
            Err(e) => return Err(e),
        };
        let ConfigBuilder { action: _, data_dir, neo4j, file, out, pigean } = self;
        match action {
            Action::Hello | Action::Survey => {
                let data_dir = match data_dir {
                    Some(d) => d,
                    None => return Err(config_error("No data directory specified.")),
                };
                let local = LocalConfig { data_dir };
                if action == Action::Hello {
                    Ok(ActionConfig::Hello(local))
                } else {
                    Ok(ActionConfig::Survey(local))
                }
            },
            Action::Ping | Action::Upload | Action::Wipe => {
                let data_dir = match data_dir {
                    Some(d) => d,
                    None => return Err(config_error("No data directory specified.")),
                };
                let local_config = LocalConfig { data_dir };
                let neo4j = match neo4j_config(neo4j) {
                    Ok(n) => n,
                    Err(e) => return Err(e),
                };
                let client = ClientConfig { local_config, neo4j };
                if action == Action::Ping {
                    Ok(ActionConfig::Ping(client))
                } else if action == Action::Upload {
                    Ok(ActionConfig::Upload(client))
                } else {
                    Ok(ActionConfig::Wipe(client))
                }
            },
            Action::Cat | Action::Ls => {
                match file {
                    Some(f) => if action == Action::Cat {
                        Ok(ActionConfig::Cat(f))
                    } else {
                        Ok(ActionConfig::Ls(f))
                    },
                    None => if action == Action::Cat {
                        Err(config_error("No file specified."))
                    } else {
                        Err(config_error("No directory specified."))
                    },
                }
            },
            _ => {
                let pigean = match pigean {
                    Some(p) => p,
                    None => return Err(config_error("No PIGEAN configuration specified.")),
                };
                let out = match out {
                    Some(o) => o,
                    None => return Err(config_error("No output directory specified.")),
                };
                let config = match pigean.build(out) {
                    Ok(c) => c,
                    Err(e) => return Err(e),
                };
                if action == Action::Bulk {
                    Ok(ActionConfig::Bulk(config))
                } else if action == Action::Factors {
                    Ok(ActionConfig::Factors(config))
                } else {
                    Ok(ActionConfig::TraitGeneSets(config))
                }
            },
        }
    }

    /// The chosen action, or an error listing the possible ones.
    pub fn get_action(&self) -> (r: Result<Action, Error>)
        ensures
            r is Ok <==> self.action is Some,
            r matches Ok(a) ==> self.action == Some(a),
            r matches Err(e) ==> e.kind == ErrorKind::Configuration && e.chain() == seq![
                no_action_message(),
            ],
    {
        match self.action {
            Some(a) => Ok(a),
            None => {
                let mut message = String::from_str("No action specified. Possible actions are ");
                let list = all_actions_list();
                message.append(list.as_str());
                message.append(".");
                Err(Error::new(ErrorKind::Configuration, message))
            },
        }
    }
}

/// Which configuration directory to use, given the two candidates (the XDG one and the one
/// under the home directory).
#[derive(Clone, Copy, Debug, PartialEq, Eq, Structural)]
pub enum AppDirChoice {
    /// Use the XDG candidate, creating it when `create` is set.
    First { create: bool },
    /// Use the home candidate, creating it when `create` is set.
    Second { create: bool },
    /// Both candidates exist and differ.
    Conflict,
    /// Neither candidate is known.
    Unknown,
}

/// A candidate that is the only one known, or equal to the other, is used and created when
/// missing; of two different candidates the one that exists is used, the XDG one is created
/// when neither exists, and both existing is a conflict.
pub open spec fn app_dir_spec(
    has_first: bool,
    has_second: bool,
    same: bool,
    first_exists: bool,
    second_exists: bool,
) -> AppDirChoice {
    if has_first && has_second && !same {
        if first_exists && second_exists {
            AppDirChoice::Conflict
        } else if first_exists {
            AppDirChoice::First { create: false }
        } else if second_exists {
            AppDirChoice::Second { create: false }
        } else {
            AppDirChoice::First { create: true }
        }
    } else if has_first {
        AppDirChoice::First { create: !first_exists }
    } else if has_second {
        AppDirChoice::Second { create: !second_exists }
    } else {
        AppDirChoice::Unknown
    }
}

pub fn choose_app_dir(
    has_first: bool,
    has_second: bool,
    same: bool,
    first_exists: bool,
    second_exists: bool,
) -> (r: AppDirChoice)
    ensures
        r == app_dir_spec(has_first, has_second, same, first_exists, second_exists),
{
    if has_first && has_second && !same {
        if first_exists && second_exists {
            AppDirChoice::Conflict
        } else if first_exists {
            AppDirChoice::First { create: false }
        } else if second_exists {
            AppDirChoice::Second { create: false }
        } else {
            AppDirChoice::First { create: true }
        }
    } else if has_first {
        AppDirChoice::First { create: !first_exists }
    } else if has_second {
        AppDirChoice::Second { create: !second_exists }
    } else {
        AppDirChoice::Unknown
    }
}

} // verus!
