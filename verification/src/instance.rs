//! Instance identity.
//!
//! The program can run several times at once, each run its own tray icon. The
//! instance name keeps their config directory, lock file and keyring entries
//! apart. It comes from `--instance=<name>`, else from the environment, else it
//! is empty: the default instance.
use crate::text::{has_prefix, same, strip_prefix};
use vstd::prelude::*;

verus! {

/// Whether an argument asks for the one-shot key prompt.
pub open spec fn is_set_key(arg: Seq<char>) -> bool {
    arg == "--set-key"@ || arg == "--set_api_key"@
}

/// Whether an argument is the value of the one before it: that is `--instance`,
/// and not itself a value.
pub open spec fn is_value(args: Seq<String>, i: int) -> bool
    decreases i,
{
    0 < i && args[i - 1]@ == "--instance"@ && !is_value(args, i - 1)
}

/// The instance that the last naming one of the first `n` arguments names: a value
/// as it stands, an `--instance=` by what follows. Empty where none names one.
pub open spec fn named(args: Seq<String>, n: int) -> Seq<char>
    decreases n,
{
    if n <= 0 {
        Seq::empty()
    } else if is_value(args, n - 1) {
        args[n - 1]@
    } else if has_prefix(args[n - 1]@, "--instance="@) {
        args[n - 1]@.skip("--instance="@.len() as int)
    } else {
        named(args, n - 1)
    }
}

/// Whether one of the first `n` arguments that is not a value asks for the key
/// prompt.
pub open spec fn key_asked(args: Seq<String>, n: int) -> bool {
    exists|i: int| 0 <= i < n && is_set_key(#[trigger] args[i]@) && !is_value(args, i)
}

/// The instance name and whether the key prompt was asked for. The environment
/// names the instance where the arguments do not.
pub open spec fn parsed(args: Seq<String>, env: Option<&str>) -> (Seq<char>, bool) {
    let name = named(args, args.len() as int);
    (
        if name.len() == 0 && env is Some {
            env->0@
        } else {
            name
        },
        key_asked(args, args.len() as int),
    )
}

/// An argument that names an instance asks for no key, and names it either here or
/// in the next one.
proof fn lemma_naming_is_no_key(arg: Seq<char>)
    ensures
        has_prefix(arg, "--instance="@) ==> !is_set_key(arg) && arg != "--instance"@,
        arg == "--instance"@ ==> !is_set_key(arg),
{
    reveal_strlit("--instance");
    reveal_strlit("--instance=");
    reveal_strlit("--set-key");
    reveal_strlit("--set_api_key");
    assert("--instance="@.len() == 11);
    assert("--set_api_key"@[2] == 's');
    if has_prefix(arg, "--instance="@) {
        assert(arg.take(11)[2] == "--instance="@[2]);
    }
}

/// Reads the instance name and the key flag from the arguments; `env` is the
/// instance named by the environment.
pub fn parse(args: Vec<String>, env: Option<&str>) -> (r: (String, bool))
    ensures
        (r.0@, r.1) == parsed(args@, env),
{
    let n: usize = args.len();
    let mut name = String::new();
    let mut set_key: bool = false;
    let mut i: usize = 0;
    while i < n
        invariant
            n == args.len(),
            i <= n,
            i < n ==> !is_value(args@, i as int),
            name@ == named(args@, i as int),
            set_key == key_asked(args@, i as int),
        decreases n - i,
    {
        let ghost before = i as int;
        let arg = args[i].as_str();
        proof {
            lemma_naming_is_no_key(arg@);
        }
        match strip_prefix(arg, "--instance=") {
            Some(rest) => {
                assert(arg@.skip("--instance="@.len() as int) =~= rest@);
                name = rest;
                i += 1;
            },
            None => {
                if same(arg, "--instance") {
                    if n - i >= 2 {
                        name = args[i + 1].clone();
                        assert(is_value(args@, before + 1));
                        i += 2;
                    } else {
                        i += 1;
                    }
                } else {
                    if same(arg, "--set-key") || same(arg, "--set_api_key") {
                        set_key = true;
                        assert(is_set_key(args@[before]@));
                    }
                    i += 1;
                }
            },
        }
        assert(set_key == key_asked(args@, i as int)) by {
            if key_asked(args@, before) {
                let j = choose|j: int|
                    0 <= j < before && is_set_key(#[trigger] args@[j]@) && !is_value(args@, j);
                assert(is_set_key(args@[j]@));
            }
            if key_asked(args@, i as int) {
                let j = choose|j: int|
                    0 <= j < i && is_set_key(#[trigger] args@[j]@) && !is_value(args@, j);
                assert(is_set_key(args@[j]@));
            }
        }
    }
    if name.as_str().is_empty() {
        if let Some(v) = env {
            name = v.to_owned();
        }
    }
    (name, set_key)
}

/// The instance name from the arguments and the environment.
pub fn resolve(args: Vec<String>, env: Option<&str>) -> (r: String)
    ensures
        r@ == parsed(args@, env).0,
{
    parse(args, env).0
}

/// Whether the one-shot key prompt was asked for.
pub fn wants_set_key(args: &Vec<String>) -> (r: bool)
    ensures
        r == exists|i: int| 0 <= i < args@.len() && is_set_key(#[trigger] args@[i]@),
{
    let mut i: usize = 0;
    while i < args.len()
        invariant
            i <= args.len(),
            forall|j: int| 0 <= j < i ==> !is_set_key(#[trigger] args@[j]@),
        decreases args.len() - i,
    {
        if same(args[i].as_str(), "--set-key") || same(args[i].as_str(), "--set_api_key") {
            assert(is_set_key(args@[i as int]@));
            return true;
        }
        i += 1;
    }
    false
}

/// The name of this run, set at most once.
#[derive(Debug)]
pub struct InstanceName {
    name: Option<String>,
}

impl InstanceName {
    /// The name, empty until it is set.
    pub closed spec fn get(&self) -> Seq<char> {
        match self.name {
            Some(n) => n@,
            None => Seq::empty(),
        }
    }

    /// Whether the name has been set.
    pub closed spec fn is_set(&self) -> bool {
        self.name is Some
    }

    /// No name yet.
    pub fn unset() -> (r: InstanceName)
        ensures
            !r.is_set(),
            r.get() == Seq::<char>::empty(),
    {
        InstanceName { name: None }
    }

    /// Sets the name from the arguments and the environment, unless it is set,
    /// and returns the name that they give.
    pub fn init(&mut self, args: Vec<String>, env: Option<&str>) -> (r: String)
        ensures
            r@ == parsed(args@, env).0,
            final(self).is_set(),
            final(self).get() == (if old(self).is_set() {
                old(self).get()
            } else {
                r@
            }),
    {
        let name = resolve(args, env);
        if self.name.is_none() {
            self.name = Some(name.clone());
        }
        name
    }

    /// The name of this run; empty for the default instance.
    pub fn name(&self) -> (r: &str)
        ensures
            r@ == self.get(),
    {
        match &self.name {
            Some(n) => n.as_str(),
            None => {
                proof {
                    reveal_strlit("");
                    assert(""@ =~= Seq::<char>::empty());
                }
                ""
            },
        }
    }
}

/// Whether this is the default instance.
pub fn is_default(name: &str) -> (r: bool)
    ensures
        r == (name@.len() == 0),
{
    name.is_empty()
}

/// The base name of everything that belongs to an instance.
pub open spec fn basename(name: Seq<char>) -> Seq<char> {
    if name.len() == 0 {
        "llm-quota-tray"@
    } else {
        "llm-quota-tray-"@ + name
    }
}

/// The config directory's base name, with the instance suffix where there is one.
pub fn config_dir_basename(name: &str) -> (r: String)
    ensures
        r@ == basename(name@),
{
    if is_default(name) {
        "llm-quota-tray".to_owned()
    } else {
        "llm-quota-tray-".to_owned().concat(name)
    }
}

/// `rel` below the directory `base`.
pub open spec fn joined(base: Seq<char>, rel: Seq<char>) -> Seq<char> {
    if base.len() == 0 {
        rel
    } else if base.last() == '/' {
        base + rel
    } else {
        base + "/"@ + rel
    }
}

/// `rel`, a relative path, below the directory `base`.
pub fn join_path(base: &str, rel: &str) -> (r: String)
    ensures
        r@ == joined(base@, rel@),
{
    let chars = crate::text::chars_of(base);
    let n: usize = chars.len();
    let mut out = base.to_owned();
    if n > 0 && chars[n - 1] != '/' {
        out.append("/");
    }
    out.append(rel);
    assert(out@ =~= joined(base@, rel@));
    out
}

/// The lock file of an instance below the runtime directory, `/tmp` where none is set.
pub fn lock_path(runtime_dir: Option<&str>, name: &str) -> (r: String)
    ensures
        r@ == joined(
            match runtime_dir {
                Some(d) => d@,
                None => "/tmp"@,
            },
            basename(name@) + ".pid"@,
        ),
{
    let file = config_dir_basename(name).concat(".pid");
    match runtime_dir {
        Some(d) => join_path(d, file.as_str()),
        None => join_path("/tmp", file.as_str()),
    }
}

/// The keyring's `application` attribute of an instance.
pub fn keyring_application(name: &str) -> (r: String)
    ensures
        r@ == basename(name@),
{
    config_dir_basename(name)
}

/// Two instances never share a base name, and so neither a config directory,
/// nor a lock file, nor a keyring entry.
pub proof fn law_instances_are_apart(a: Seq<char>, b: Seq<char>)
    requires
        a != b,
    ensures
        basename(a) != basename(b),
        forall|dir: Seq<char>| #[trigger]
            joined(dir, basename(a) + ".pid"@) != joined(dir, basename(b) + ".pid"@),
{
    reveal_strlit("llm-quota-tray");
    reveal_strlit("llm-quota-tray-");
    let p = "llm-quota-tray-"@;
    assert("llm-quota-tray"@.len() == 14);
    assert(p.len() == 15);
    if basename(a) == basename(b) {
        if a.len() > 0 && b.len() > 0 {
            assert((p + a).skip(15) =~= a);
            assert((p + b).skip(15) =~= b);
        }
        assert(a =~= b);
    }
    let x = basename(a) + ".pid"@;
    let y = basename(b) + ".pid"@;
    if x == y {
        assert(x.take(x.len() - ".pid"@.len()) =~= basename(a));
        assert(y.take(y.len() - ".pid"@.len()) =~= basename(b));
    }
    assert forall|dir: Seq<char>| #[trigger] joined(dir, x) != joined(dir, y) by {
        lemma_joined_injective(dir, x, y);
    }
}

proof fn lemma_joined_injective(dir: Seq<char>, x: Seq<char>, y: Seq<char>)
    requires
        x != y,
    ensures
        joined(dir, x) != joined(dir, y),
{
    if joined(dir, x) == joined(dir, y) {
        let head = if dir.len() == 0 {
            Seq::empty()
        } else if dir.last() == '/' {
            dir
        } else {
            dir + "/"@
        };
        assert(joined(dir, x) =~= head + x);
        assert(joined(dir, y) =~= head + y);
        assert((head + x).skip(head.len() as int) =~= x);
        assert((head + y).skip(head.len() as int) =~= y);
    }
}

/// The default instance has the plain base name, every other its own name behind it,
/// and paths are joined with exactly one slash.
pub proof fn law_base_names_carry_the_instance(name: Seq<char>, dir: Seq<char>, rel: Seq<char>)
    ensures
        basename(Seq::empty()) == "llm-quota-tray"@,
        name.len() > 0 ==> basename(name) == "llm-quota-tray-"@ + name,
        dir.len() > 0 && dir.last() != '/' ==> joined(dir, rel) == dir + "/"@ + rel,
        dir.len() > 0 && dir.last() == '/' ==> joined(dir, rel) == dir + rel,
        joined(Seq::empty(), rel) == rel,
{
}

/// The last argument that names an instance decides: an `--instance=` by what follows
/// it, the argument behind `--instance` by itself, and any other leaves the name as the
/// arguments before it made it. Only without a name the environment's is taken.
pub proof fn law_the_last_name_decides(
    args: Seq<String>,
    last: String,
    rest: Seq<char>,
    env: Option<&str>,
)
    ensures
        ({
            let all = args.push(last);
            let n = args.len() as int;
            let value = n > 0 && args[n - 1]@ == "--instance"@ && !is_value(args, n - 1);
            let before = parsed(args, None);
            let after = parsed(all, None);
            &&& value ==> after.0 == last@ && after.1 == before.1
            &&& !value && last@ == "--instance="@ + rest ==> after.0 == rest
            &&& !value && !has_prefix(last@, "--instance="@) ==> after.0 == before.0
            &&& !value ==> after.1 == (before.1 || last@ == "--set-key"@ || last@
                == "--set_api_key"@)
        }),
        parsed(args, env).0 == (if parsed(args, None).0.len() == 0 && env is Some {
            env->0@
        } else {
            parsed(args, None).0
        }),
        parsed(args, env).1 == parsed(args, None).1,
        parsed(Seq::empty(), None) == (Seq::<char>::empty(), false),
{
    let all = args.push(last);
    let n = args.len() as int;
    lemma_values_of_prefix(args, last, n);
    lemma_named_of_prefix(args, last, n);
    let value = is_value(all, n);
    assert(all[n] == last);
    if n > 0 {
        assert(all[n - 1] == args[n - 1]);
    }
    if !value && last@ == "--instance="@ + rest {
        let p = "--instance="@;
        assert(last@.subrange(0, p.len() as int) =~= p);
        assert(has_prefix(last@, p));
        assert(last@.skip(p.len() as int) =~= rest);
    }
    if key_asked(args, n) {
        let j = choose|j: int|
            0 <= j < n && is_set_key(#[trigger] args[j]@) && !is_value(args, j);
        lemma_values_of_prefix(args, last, j);
        assert(all[j] == args[j]);
        assert(is_set_key(all[j]@));
    }
    if key_asked(all, n + 1) {
        let j = choose|j: int|
            0 <= j < n + 1 && is_set_key(#[trigger] all[j]@) && !is_value(all, j);
        if j < n {
            lemma_values_of_prefix(args, last, j);
            assert(all[j] == args[j]);
            assert(is_set_key(args[j]@));
        }
    }
    if !value && is_set_key(last@) {
        assert(is_set_key(all[n]@));
    }
}

/// The argument behind `--instance` is its value and no flag of its own, so of several
/// `--instance` in a row every other is one.
pub proof fn law_values_take_turns_with_flags(args: Seq<String>, i: int)
    requires
        0 <= i < args.len(),
    ensures
        !is_value(args, 0),
        args[i]@ != "--instance"@ ==> !is_value(args, i + 1),
        args[i]@ == "--instance"@ ==> is_value(args, i + 1) == !is_value(args, i),
{
}

proof fn lemma_values_of_prefix(args: Seq<String>, last: String, i: int)
    requires
        i <= args.len(),
    ensures
        is_value(args.push(last), i) == is_value(args, i),
    decreases i,
{
    if i > 0 {
        lemma_values_of_prefix(args, last, i - 1);
        assert(args.push(last)[i - 1] == args[i - 1]);
    }
}

proof fn lemma_named_of_prefix(args: Seq<String>, last: String, i: int)
    requires
        i <= args.len(),
    ensures
        named(args.push(last), i) == named(args, i),
    decreases i,
{
    if i > 0 {
        lemma_values_of_prefix(args, last, i - 1);
        lemma_named_of_prefix(args, last, i - 1);
        assert(args.push(last)[i - 1] == args[i - 1]);
    }
}

} // verus!
