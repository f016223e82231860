//! Configuration data and the rules that resolve it: profile lookup, the
//! connection parameters a profile yields, and the delimiter set. Reading
//! the config file and the environment happens outside this library; the
//! values read are handed in as plain arguments.

use vstd::prelude::*;

verus! {

/// How strongly a namespace is protected against writes.
#[derive(Debug, Clone, Copy, PartialEq, Eq, Structural)]
pub enum ProtectionLevel {
    Warn,
    Confirm,
    Block,
}

/// A protected key-space prefix.
#[derive(Debug)]
pub struct ProtectedNamespace {
    pub prefix: String,
    pub level: ProtectionLevel,
}

impl Clone for ProtectedNamespace {
    fn clone(&self) -> (r: Self)
        ensures
            r == *self,
    {
        ProtectedNamespace { prefix: self.prefix.clone(), level: self.level }
    }
}

/// The resolved application configuration.
#[derive(Debug)]
pub struct AppConfig {
    pub connection: ConnectionConfig,
    pub ui: UiConfig,
}

#[derive(Debug)]
pub struct ConnectionConfig {
    pub url: String,
    pub db: u8,
    pub readonly: bool,
}

#[derive(Debug)]
pub struct UiConfig {
    pub delimiters: Vec<char>,
    pub protected_namespaces: Vec<ProtectedNamespace>,
}

impl Default for AppConfig {
    /// The local default store, delimiters colon and slash, writes allowed.
    fn default() -> (r: Self)
        ensures
            r.connection.url@ == "redis://127.0.0.1:6379"@,
            r.connection.db == 0,
            !r.connection.readonly,
            r.ui.delimiters@ == seq![':', '/'],
            r.ui.protected_namespaces@.len() == 0,
    {
        let mut delimiters: Vec<char> = Vec::new();
        delimiters.push(':');
        delimiters.push('/');
        proof {
            assert(delimiters@ =~= seq![':', '/']);
        }
        AppConfig {
            connection: ConnectionConfig {
                url: String::from_str("redis://127.0.0.1:6379"),
                db: 0,
                readonly: false,
            },
            ui: UiConfig { delimiters, protected_namespaces: Vec::new() },
        }
    }
}

/// The file-level defaults section.
#[derive(Debug)]
pub struct Defaults {
    pub delimiters: Vec<String>,
    pub theme: Option<String>,
}

/// One named connection profile of the config file.
#[derive(Debug)]
pub struct Profile {
    pub url: Option<String>,
    pub host: Option<String>,
    pub port: Option<u16>,
    pub password: Option<String>,
    pub password_env: Option<String>,
    pub db: Option<u8>,
    pub delimiters: Vec<String>,
    pub readonly: bool,
    pub protected_namespaces: Vec<ProtectedNamespace>,
}

/// The parsed config file: defaults and named profiles, in file order with
/// unique names.
#[derive(Debug)]
pub struct ConfigFile {
    pub defaults: Defaults,
    pub profiles: Vec<(String, Profile)>,
}

/// The first profile index with the given name, or the list length.
pub open spec fn find_profile(profiles: Seq<(String, Profile)>, name: Seq<char>) -> int
    decreases profiles.len(),
{
    if profiles.len() == 0 {
        0
    } else if profiles[0].0@ == name {
        0
    } else {
        1 + find_profile(profiles.drop_first(), name)
    }
}

pub proof fn lemma_find_profile(profiles: Seq<(String, Profile)>, name: Seq<char>)
    ensures
        0 <= find_profile(profiles, name) <= profiles.len(),
        find_profile(profiles, name) < profiles.len() ==> profiles[find_profile(
            profiles,
            name,
        )].0@ == name,
        forall|j: int| 0 <= j < find_profile(profiles, name) ==> profiles[j].0@ != name,
    decreases profiles.len(),
{
    if profiles.len() == 0 {
    } else if profiles[0].0@ == name {
    } else {
        lemma_find_profile(profiles.drop_first(), name);
        let rec = find_profile(profiles.drop_first(), name);
        assert forall|j: int| 0 <= j < 1 + rec implies profiles[j].0@ != name by {
            if j > 0 {
                assert(profiles[j] == profiles.drop_first()[j - 1]);
            }
        }
    }
}

impl ConfigFile {
    /// The first profile with this name, if any.
    pub fn get_profile(&self, name: &String) -> (r: Option<&Profile>)
        ensures
            (r is Some) == (find_profile(self.profiles@, name@) < self.profiles@.len()),
            r is Some ==> *r->0 == self.profiles@[find_profile(self.profiles@, name@)].1,
    {
        let n = self.profiles.len();
        let mut i: usize = 0;
        while i < n
            invariant
                i <= n,
                n == self.profiles@.len(),
                forall|j: int| 0 <= j < i ==> (#[trigger] self.profiles@[j]).0@ != name@,
            decreases n - i,
        {
            if self.profiles[i].0 == *name {
                proof {
                    lemma_find_profile(self.profiles@, name@);
                    if find_profile(self.profiles@, name@) < i as int {
                        assert(false);
                    }
                    if find_profile(self.profiles@, name@) > i as int {
                        assert(self.profiles@[i as int].0@ != name@);
                        assert(false);
                    }
                }
                return Some(&self.profiles[i].1);
            }
            i += 1;
        }
        proof {
            lemma_find_profile(self.profiles@, name@);
            if find_profile(self.profiles@, name@) < n as int {
                assert(false);
            }
        }
        None
    }
}

/// The first characters of the non-empty configured delimiter strings.
pub open spec fn first_chars(segs: Seq<Seq<char>>) -> Seq<char>
    decreases segs.len(),
{
    if segs.len() == 0 {
        Seq::empty()
    } else {
        (if segs[0].len() > 0 {
            seq![segs[0][0]]
        } else {
            Seq::empty()
        }) + first_chars(segs.drop_first())
    }
}

/// The delimiter set the tree builder uses: the command-line delimiters when
/// any were given, else the first characters of the file defaults, else the
/// colon alone. The result is never empty: the tree builder needs at least
/// one delimiter, so an all-empty file default also falls back to the colon.
pub fn resolve_delimiters(cli_delims: &Vec<char>, file_delims: Option<&Vec<String>>) -> (r: Vec<
    char,
>)
    ensures
        r@.len() > 0,
        cli_delims@.len() > 0 ==> r@ == cli_delims@,
        cli_delims@.len() == 0 && file_delims is Some ==> ({
            let fc = first_chars(crate::kinds::strs_model(file_delims->0@));
            r@ == if fc.len() > 0 {
                fc
            } else {
                seq![':']
            }
        }),
        cli_delims@.len() == 0 && file_delims is None ==> r@ == seq![':'],
{
    if cli_delims.len() > 0 {
        let mut r: Vec<char> = Vec::new();
        let n = cli_delims.len();
        let mut i: usize = 0;
        while i < n
            invariant
                i <= n,
                n == cli_delims@.len(),
                r@ == cli_delims@.take(i as int),
            decreases n - i,
        {
            r.push(cli_delims[i]);
            proof {
                assert(cli_delims@.take(i + 1) =~= cli_delims@.take(i as int).push(
                    cli_delims@[i as int],
                ));
            }
            i += 1;
        }
        proof {
            assert(cli_delims@.take(n as int) =~= cli_delims@);
        }
        r
    } else {
        match file_delims {
            Some(ds) => {
                let ghost sm = crate::kinds::strs_model(ds@);
                let mut r: Vec<char> = Vec::new();
                let n = ds.len();
                let mut i: usize = 0;
                proof {
                    assert(sm.skip(0) =~= sm);
                    assert(r@ + first_chars(sm) =~= first_chars(sm));
                }
                while i < n
                    invariant
                        i <= n,
                        n == ds@.len(),
                        sm == crate::kinds::strs_model(ds@),
                        r@ + first_chars(sm.skip(i as int)) == first_chars(sm),
                    decreases n - i,
                {
                    let ghost r0 = r@;
                    proof {
                        assert(sm.skip(i as int)[0] == sm[i as int]);
                        assert(sm.skip(i as int).drop_first() =~= sm.skip(i + 1));
                    }
                    let d = &ds[i];
                    if !d.as_str().is_empty() {
                        let c = d.as_str().get_char(0);
                        r.push(c);
                        proof {
                            assert(r@ + first_chars(sm.skip(i + 1)) =~= r0 + (seq![sm[i as int][0]]
                                + first_chars(sm.skip(i + 1))));
                        }
                    } else {
                        proof {
                            assert(r@ + first_chars(sm.skip(i + 1)) =~= r0 + (
                            Seq::<char>::empty() + first_chars(sm.skip(i + 1))));
                        }
                    }
                    i += 1;
                }
                proof {
                    assert(first_chars(sm.skip(n as int)) =~= Seq::<char>::empty());
                    assert(r@ =~= r@ + first_chars(sm.skip(n as int)));
                }
                if r.len() == 0 {
                    r.push(':');
                    proof {
                        assert(r@ =~= seq![':']);
                    }
                }
                r
            },
            None => {
                let mut r: Vec<char> = Vec::new();
                r.push(':');
                proof {
                    assert(r@ =~= seq![':']);
                }
                r
            },
        }
    }
}

/// The connection parameters a profile resolves to, before the URL string is
/// assembled.
#[derive(Debug)]
pub struct ResolvedConnection {
    /// A complete URL, overriding everything else, when the profile has one.
    pub url: Option<String>,
    pub host: String,
    pub port: u16,
    pub password: Option<String>,
}

/// A copy of an optional string.
pub(crate) fn clone_opt_str(s: &Option<String>) -> (r: Option<String>)
    ensures
        (r is Some) == (s is Some),
        r is Some ==> r->0@ == s->0@,
{
    match s {
        Some(k) => Some(k.clone()),
        None => None,
    }
}

/// Resolve a profile's connection: its URL when set; otherwise its host and
/// port falling back to the command line's, and the password by precedence:
/// the profile's own, then the value read from the profile's password
/// environment variable, then the command line's, then the value read from
/// the default password environment variable.
pub fn connection_from_profile(
    profile: &Profile,
    cli_host: &String,
    cli_port: u16,
    cli_password: &Option<String>,
    env_profile_password: &Option<String>,
    env_redis_password: &Option<String>,
) -> (r: ResolvedConnection)
    ensures
        (r.url is Some) == (profile.url is Some),
        profile.url is Some ==> r.url->0@ == profile.url->0@,
        r.host@ == (if profile.host is Some {
            profile.host->0@
        } else {
            cli_host@
        }),
        r.port == (if profile.port is Some {
            profile.port->0
        } else {
            cli_port
        }),
        ({
            let expected = if profile.password is Some {
                Some(profile.password->0@)
            } else if profile.password_env is Some && env_profile_password is Some {
                Some(env_profile_password->0@)
            } else if cli_password is Some {
                Some(cli_password->0@)
            } else if env_redis_password is Some {
                Some(env_redis_password->0@)
            } else {
                None
            };
            &&& (r.password is Some) == (expected is Some)
            &&& (r.password is Some ==> r.password->0@ == expected->0)
        }),
{
    let url = clone_opt_str(&profile.url);
    let host = match &profile.host {
        Some(h) => h.clone(),
        None => cli_host.clone(),
    };
    let port = match profile.port {
        Some(p) => p,
        None => cli_port,
    };
    let password = if matches!(&profile.password, Some(_)) {
        clone_opt_str(&profile.password)
    } else if matches!(&profile.password_env, Some(_)) && matches!(env_profile_password, Some(_)) {
        clone_opt_str(env_profile_password)
    } else if matches!(cli_password, Some(_)) {
        clone_opt_str(cli_password)
    } else {
        clone_opt_str(env_redis_password)
    };
    ResolvedConnection { url, host, port, password }
}

} // verus!
