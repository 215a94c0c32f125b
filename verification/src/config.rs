//! The proxy's configuration.

use vstd::prelude::*;

verus! {

/// A backend server.
#[derive(Debug)]
pub enum ServerEntry {
    Url(String),
    WithToken { url: String, token: String },
}

impl Clone for ServerEntry {
    fn clone(&self) -> (r: Self)
        ensures
            r == *self,
    {
        match self {
            ServerEntry::Url(u) => ServerEntry::Url(u.clone()),
            ServerEntry::WithToken { url, token } => ServerEntry::WithToken {
                url: url.clone(),
                token: token.clone(),
            },
        }
    }
}

impl ServerEntry {
    pub open spec fn url_text(&self) -> Seq<char> {
        match self {
            ServerEntry::Url(u) => u@,
            ServerEntry::WithToken { url, .. } => url@,
        }
    }

    pub open spec fn token_text(&self) -> Option<Seq<char>> {
        match self {
            ServerEntry::Url(_) => None,
            ServerEntry::WithToken { token, .. } => Some(token@),
        }
    }

    pub fn url(&self) -> (r: &str)
        ensures
            r@ == self.url_text(),
    {
        match self {
            ServerEntry::Url(u) => u.as_str(),
            ServerEntry::WithToken { url, .. } => url.as_str(),
        }
    }

    pub fn token(&self) -> (r: Option<&str>)
        ensures
            match r {
                Some(token) => self.token_text() == Some(token@),
                None => self.token_text() is None,
            },
    {
        match self {
            ServerEntry::Url(_) => None,
            ServerEntry::WithToken { token, .. } => Some(token.as_str()),
        }
    }
}

/// The servers that share the GPUs of one set.
#[derive(Debug)]
pub struct ServerGroup {
    pub name: String,
    pub entries: Vec<ServerEntry>,
}

#[derive(Debug)]
pub struct Config {
    pub listen: String,
    pub api_tokens: Vec<String>,
    /// The groups, each name once.
    pub servers: Vec<ServerGroup>,
}

/// What is wrong with a configuration.
#[derive(Debug)]
pub enum ConfigError {
    NoApiToken,
    /// The group of this name has no servers.
    EmptyGroup(String),
}

impl ConfigError {
    pub open spec fn message(&self) -> Seq<char> {
        match self {
            ConfigError::NoApiToken => "at least one api_token is required"@,
            ConfigError::EmptyGroup(name) => "server group '"@ + name@ + "' has no URLs"@,
        }
    }

    pub fn to_string(&self) -> (r: String)
        ensures
            r@ == self.message(),
    {
        match self {
            ConfigError::NoApiToken => "at least one api_token is required".to_owned(),
            ConfigError::EmptyGroup(name) => {
                let mut text: String = "server group '".to_owned();
                text.append(name.as_str());
                text.append("' has no URLs");
                text
            },
        }
    }
}

impl Config {
    /// Whether each group has a name of its own.
    pub open spec fn names_distinct(&self) -> bool {
        forall|i: int, j: int|
            0 <= i < j < self.servers@.len() ==> (#[trigger] self.servers@[i]).name@ != (
            #[trigger] self.servers@[j]).name@
    }

    /// Whether the proxy can run on this configuration.
    pub open spec fn usable(&self) -> bool {
        &&& self.api_tokens@.len() > 0
        &&& forall|i: int|
            0 <= i < self.servers@.len() ==> (#[trigger] self.servers@[i]).entries@.len() > 0
    }

    /// Whether the group at `i` is the first without servers.
    pub open spec fn first_empty_group(&self, i: int) -> bool {
        &&& 0 <= i < self.servers@.len()
        &&& self.servers@[i].entries@.len() == 0
        &&& forall|j: int| 0 <= j < i ==> (#[trigger] self.servers@[j]).entries@.len() > 0
    }

    /// Checks that there is an API token and that every group has a server.
    pub fn validate(&self) -> (r: Result<(), ConfigError>)
        ensures
            r is Ok <==> self.usable(),
            (r matches Err(e) && e is NoApiToken) <==> self.api_tokens@.len() == 0,
            r matches Err(ConfigError::EmptyGroup(name)) ==> exists|i: int| #[trigger]
                self.first_empty_group(i) && name@ == self.servers@[i].name@,
    {
        if self.api_tokens.len() == 0 {
            return Err(ConfigError::NoApiToken);
        }
        let mut i: usize = 0;
        while i < self.servers.len()
            invariant
                i <= self.servers@.len(),
                self.api_tokens@.len() > 0,
                forall|j: int| 0 <= j < i ==> (#[trigger] self.servers@[j]).entries@.len() > 0,
            decreases self.servers@.len() - i,
        {
            if self.servers[i].entries.len() == 0 {
                proof {
                    assert(self.first_empty_group(i as int));
                    assert(self.servers@[i as int].entries@.len() == 0);
                }
                return Err(ConfigError::EmptyGroup(self.servers[i].name.clone()));
            }
            i = i + 1;
        }
        Ok(())
    }
}

/// A server is reached under the URL that it was configured with, and with the token,
/// if it was configured with one.
pub proof fn servers_are_as_configured(url: String, token: String)
    ensures
        ServerEntry::Url(url).url_text() == url@,
        ServerEntry::Url(url).token_text() is None,
        (ServerEntry::WithToken { url, token }).url_text() == url@,
        (ServerEntry::WithToken { url, token }).token_text() == Some(token@),
{
}

/// A configuration is usable exactly if it has a token and no group without servers.
pub proof fn usable_means_tokens_and_servers(config: Config)
    ensures
        config.usable() <==> config.api_tokens@.len() > 0 && !(exists|i: int|
            0 <= i < config.servers@.len() && (#[trigger] config.servers@[i]).entries@.len() == 0),
{
}

/// The group that an unusable configuration is blamed on has no servers, and no group
/// ahead of it lacks them.
pub proof fn the_first_empty_group_is_blamed(config: Config, i: int, j: int)
    requires
        config.first_empty_group(i),
        0 <= j < config.servers@.len(),
        config.servers@[j].entries@.len() == 0,
    ensures
        0 <= i <= j,
        config.servers@[i].entries@.len() == 0,
{
    if j < i {
        assert(config.servers@[j].entries@.len() > 0);
    }
}

/// What is wrong with a configuration is told in these words, with the whole name of
/// the group where it is one.
pub proof fn errors_name_the_group(name: String)
    ensures
        ConfigError::NoApiToken.message() == "at least one api_token is required"@,
        ConfigError::EmptyGroup(name).message() == "server group '"@ + name@ + "' has no URLs"@,
{
}

} // verus!
