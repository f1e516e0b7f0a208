//! Instance configuration: its fields, its defaults and where it lies.
use crate::burn::BurnConfig;
use crate::instance::{basename, config_dir_basename, join_path, joined};
use crate::provider::{
    default_ring_colors, default_shape, hashed, is_default_shape, AuthConfig, PlanShape,
    RingColors, DEFAULT_OUTER_COLOR, DEFAULT_USER_AGENT,
};
use vstd::prelude::*;

verus! {

/// Base name of the default instance's config directory.
pub const CONFIG_DIR_BASE: &'static str = "llm-quota-tray";

/// Name of the config file.
pub const CONFIG_FILENAME: &'static str = "config.json";

/// Percentages of use from which on polling speeds up and the user is warned.
#[derive(Debug, Clone, Copy, PartialEq, Eq, Structural)]
pub struct Thresholds {
    /// Yellow from this used percentage on.
    pub yellow: i64,
    /// Red from this used percentage on.
    pub red: i64,
}

impl Default for Thresholds {
    fn default() -> (r: Thresholds)
        ensures
            r == (Thresholds { yellow: 0, red: 0 }),
    {
        Thresholds { yellow: 0, red: 0 }
    }
}

/// Everything that an instance configures.
#[derive(Debug, Clone)]
pub struct Config {
    /// The URL that is polled.
    pub endpoint: String,
    /// The URL behind the dashboard item.
    pub dashboard_url: String,
    /// The name shown in the chip and in the menu's header.
    pub label: String,
    /// The shape of the answer.
    pub shape: PlanShape,
    /// The icon's colors.
    pub ring_colors: RingColors,
    /// How the API key is sent.
    pub auth: AuthConfig,
    /// User-Agent prefix; the version is appended.
    pub user_agent: String,
    /// Seconds between polls.
    pub refresh_seconds: u64,
    /// Fewest seconds between polls; after an error the cap below wins where it is
    /// lower.
    pub refresh_min_seconds: u64,
    /// Most seconds between polls after errors.
    pub refresh_max_backoff_seconds: u64,
    pub thresholds: Thresholds,
    pub burn_warning: BurnConfig,
    /// The URL of the price table, if there is one.
    pub pricing_endpoint: Option<String>,
    /// Polls between two fetches of the price table; `None` means once.
    pub pricing_refresh_polls: Option<u64>,
}

/// Default User-Agent prefix.
pub fn default_user_agent() -> (r: String)
    ensures
        r@ == DEFAULT_USER_AGENT@,
{
    DEFAULT_USER_AGENT.to_owned()
}

/// Default for the fewest seconds between polls.
pub fn default_refresh_min_seconds() -> (r: u64)
    ensures
        r == 15,
{
    15
}

/// Whether a configuration is the neutral one that a tray starts with.
pub open spec fn is_default_config(c: Config) -> bool {
    &&& c.endpoint@ == Seq::<char>::empty()
    &&& c.dashboard_url@ == Seq::<char>::empty()
    &&& c.label@ == "Quota"@
    &&& is_default_shape(c.shape)
    &&& c.ring_colors.inner.normal@ == "#3a9d4d"@
    &&& c.ring_colors.inner.warning@ == "#f6d32d"@
    &&& c.ring_colors.inner.throttled@ == "#e01b24"@
    &&& c.ring_colors.outer@ == DEFAULT_OUTER_COLOR@
    &&& hashed(c.ring_colors)
    &&& c.auth == AuthConfig::Bearer
    &&& c.user_agent@ == DEFAULT_USER_AGENT@
    &&& c.refresh_seconds == 120
    &&& c.refresh_min_seconds == 15
    &&& c.refresh_max_backoff_seconds == 600
    &&& c.thresholds == (Thresholds { yellow: 60, red: 85 })
    &&& c.burn_warning == (BurnConfig {
        enabled: true,
        min_history_ms: 600_000,
        lookback_ms: 3_600_000,
        use_epoch_average: true,
    })
    &&& c.pricing_endpoint is None
    &&& c.pricing_refresh_polls is None
}

impl Default for Config {
    fn default() -> (r: Config)
        ensures
            is_default_config(r),
    {
        Config {
            endpoint: String::new(),
            dashboard_url: String::new(),
            label: "Quota".to_owned(),
            shape: default_shape(),
            ring_colors: default_ring_colors(),
            auth: AuthConfig::Bearer,
            user_agent: default_user_agent(),
            refresh_seconds: 120,
            refresh_min_seconds: default_refresh_min_seconds(),
            refresh_max_backoff_seconds: 600,
            thresholds: Thresholds { yellow: 60, red: 85 },
            burn_warning: BurnConfig {
                enabled: true,
                min_history_ms: 600_000,
                lookback_ms: 3_600_000,
                use_epoch_average: true,
            },
            pricing_endpoint: None,
            pricing_refresh_polls: None,
        }
    }
}

/// The config file of an instance below a home directory, `/tmp` where none is set.
pub open spec fn config_file(home: Option<&str>, instance: Seq<char>) -> Seq<char> {
    joined(
        joined(
            match home {
                Some(h) => h@,
                None => "/tmp"@,
            },
            ".config/"@ + basename(instance),
        ),
        "config.json"@,
    )
}

/// The config file of an instance; `home` is the home directory, if known.
pub fn config_path_for(home: Option<&str>, instance: &str) -> (r: String)
    ensures
        r@ == config_file(home, instance@),
{
    let sub = ".config/".to_owned().concat(config_dir_basename(instance).as_str());
    let dir = match home {
        Some(h) => join_path(h, sub.as_str()),
        None => join_path("/tmp", sub.as_str()),
    };
    join_path(dir.as_str(), CONFIG_FILENAME)
}

/// The config file of the running instance.
pub fn config_path(home: Option<&str>, running: &crate::instance::InstanceName) -> (r: String)
    ensures
        r@ == config_file(home, running.get()),
{
    config_path_for(home, running.name())
}

/// The configuration to run with: what the file held, or the defaults where
/// there is none that can be read.
pub fn load(file: Option<Config>) -> (r: Config)
    ensures
        match file {
            Some(c) => r == c,
            None => is_default_config(r),
        },
{
    match file {
        Some(c) => c,
        None => Config::default(),
    }
}

/// The configuration to run with, and whether it has to be written because
/// there was no file yet.
pub fn load_or_init(exists: bool, file: Option<Config>) -> (r: (Config, bool))
    ensures
        r.1 == !exists,
        match file {
            Some(c) => if exists {
                r.0 == c
            } else {
                is_default_config(r.0)
            },
            None => is_default_config(r.0),
        },
{
    if exists {
        (load(file), false)
    } else {
        (Config::default(), true)
    }
}

/// Two instances read the same config file only where one is named as the other
/// with a slash behind it.
pub proof fn law_instances_have_own_config(home: Option<&str>, a: Seq<char>, b: Seq<char>)
    ensures
        config_file(home, a) == config_file(home, b) ==> a == b || a == b.push('/') || b
            == a.push('/'),
{
    lemma_config_file(home, a);
    lemma_config_file(home, b);
    let p = config_root(home);
    let t = "config.json"@;
    let x = p + closed_name(a) + t;
    let y = p + closed_name(b) + t;
    if x == y {
        assert(x.subrange(p.len() as int, x.len() - t.len()) =~= closed_name(a));
        assert(y.subrange(p.len() as int, y.len() - t.len()) =~= closed_name(b));
        lemma_closed_name(a, b);
        lemma_closed_name(b, a);
        if basename(a) == basename(b) && a != b {
            crate::instance::law_instances_are_apart(a, b);
        }
    }
}

/// An instance's base name with a slash behind it, unless it ends in one.
spec fn closed_name(name: Seq<char>) -> Seq<char> {
    if name.len() > 0 && name.last() == '/' {
        basename(name)
    } else {
        basename(name) + "/"@
    }
}

/// A slash at the end of one name stands for the slash behind the other.
proof fn lemma_closed_name(a: Seq<char>, b: Seq<char>)
    requires
        closed_name(a) == closed_name(b),
    ensures
        a.len() > 0 && a.last() == '/' ==> a == b.push('/') || basename(a) == basename(b),
        !(a.len() > 0 && a.last() == '/') && !(b.len() > 0 && b.last() == '/') ==> basename(a)
            == basename(b),
{
    reveal_strlit("/");
    reveal_strlit("llm-quota-tray");
    reveal_strlit("llm-quota-tray-");
    let p = "llm-quota-tray-"@;
    let x = closed_name(a);
    let y = closed_name(b);
    assert(x.drop_last() =~= y.drop_last());
    let a_ends = a.len() > 0 && a.last() == '/';
    let b_ends = b.len() > 0 && b.last() == '/';
    if !a_ends && !b_ends {
        assert(x.drop_last() =~= basename(a));
        assert(y.drop_last() =~= basename(b));
    } else if a_ends && !b_ends {
        if b.len() == 0 {
            assert(x[14] == '-');
            assert(y[14] == '/');
        } else {
            assert(x =~= p + a);
            assert(y =~= p + b.push('/'));
            assert(x.skip(15) =~= a);
            assert(y.skip(15) =~= b.push('/'));
        }
    }
}

/// What stands before an instance's base name in its config file's path.
spec fn config_root(home: Option<&str>) -> Seq<char> {
    joined(
        match home {
            Some(h) => h@,
            None => "/tmp"@,
        },
        ".config/"@,
    )
}

proof fn lemma_config_file(home: Option<&str>, name: Seq<char>)
    ensures
        config_file(home, name) == config_root(home) + closed_name(name) + "config.json"@,
{
    reveal_strlit("llm-quota-tray");
    reveal_strlit("llm-quota-tray-");
    let dir = match home {
        Some(h) => h@,
        None => "/tmp"@,
    };
    let sub = joined(dir, ".config/"@ + basename(name));
    assert(sub =~= config_root(home) + basename(name));
    assert(basename(name).len() > 0);
    assert((basename(name).last() == '/') == (name.len() > 0 && name.last() == '/'));
    assert(sub.last() == basename(name).last());
    assert(config_file(home, name) =~= config_root(home) + closed_name(name) + "config.json"@);
}

/// The neutral configuration polls nothing, every two minutes and no more often than
/// every 15 seconds, backs off to ten minutes at most, and has its thresholds at 60 and
/// 85 percent used; projections look back an hour and need ten minutes of history.
pub proof fn law_the_neutral_configuration(c: Config)
    requires
        is_default_config(c),
    ensures
        c.endpoint@.len() == 0,
        c.dashboard_url@.len() == 0,
        c.label@ == "Quota"@,
        c.auth == AuthConfig::Bearer,
        c.user_agent@ == "llm-quota-tray"@,
        c.refresh_seconds == 120,
        c.refresh_min_seconds == 15,
        c.refresh_max_backoff_seconds == 600,
        c.thresholds.yellow == 60,
        c.thresholds.red == 85,
        c.burn_warning.enabled,
        c.burn_warning.use_epoch_average,
        c.burn_warning.min_history_ms == 10 * 60 * 1000,
        c.burn_warning.lookback_ms == 60 * 60 * 1000,
        c.pricing_endpoint is None,
        c.pricing_refresh_polls is None,
        c.ring_colors.inner.normal@ == "#3a9d4d"@,
        c.ring_colors.inner.warning@ == "#f6d32d"@,
        c.ring_colors.inner.throttled@ == "#e01b24"@,
        c.ring_colors.outer@ == "#3584e4"@,
        c.shape.windows@.len() == 1,
{
}

/// The config file stands in a directory of the instance below `.config` of the home
/// directory, or of `/tmp` where no home is known.
pub proof fn law_config_files_stand_below_home(home: &str, name: Seq<char>)
    requires
        home@.len() > 0,
        home@.last() != '/',
        name.len() > 0,
        name.last() != '/',
    ensures
        config_file(Some(home), Seq::empty()) == home@ + "/"@ + ".config/"@ + "llm-quota-tray"@
            + "/"@ + "config.json"@,
        config_file(Some(home), name) == home@ + "/"@ + ".config/"@ + "llm-quota-tray-"@ + name
            + "/"@ + "config.json"@,
        config_file(None, name) == "/tmp"@ + "/"@ + ".config/"@ + "llm-quota-tray-"@ + name + "/"@
            + "config.json"@,
{
    reveal_strlit("llm-quota-tray");
    reveal_strlit("llm-quota-tray-");
    reveal_strlit("/tmp");
    let e = Seq::<char>::empty();
    let s = home@ + "/"@ + (".config/"@ + "llm-quota-tray"@);
    assert(s.last() == 'y');
    assert(config_file(Some(home), e) =~= s + "/"@ + "config.json"@);
    assert(s + "/"@ + "config.json"@ =~= home@ + "/"@ + ".config/"@ + "llm-quota-tray"@ + "/"@
        + "config.json"@);
    let t = home@ + "/"@ + (".config/"@ + ("llm-quota-tray-"@ + name));
    assert(t.last() == name.last());
    assert(config_file(Some(home), name) =~= t + "/"@ + "config.json"@);
    assert(t + "/"@ + "config.json"@ =~= home@ + "/"@ + ".config/"@ + "llm-quota-tray-"@ + name
        + "/"@ + "config.json"@);
    let u = "/tmp"@ + "/"@ + (".config/"@ + ("llm-quota-tray-"@ + name));
    assert("/tmp"@.last() == 'p');
    assert(u.last() == name.last());
    assert(config_file(None, name) =~= u + "/"@ + "config.json"@);
    assert(u + "/"@ + "config.json"@ =~= "/tmp"@ + "/"@ + ".config/"@ + "llm-quota-tray-"@ + name
        + "/"@ + "config.json"@);
}

} // verus!
