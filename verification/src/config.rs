//! What the user has set.
use crate::filesystem;
use crate::filesystem::{deduplicate, directories};
use crate::model;
use crate::path;
use crate::path::{is_under, join};
use crate::platform;
use crate::platform::xdg;
use crate::text;
use crate::text::{after_prefix, copy_texts, same};
use vstd::prelude::*;
use vstd::string::*;

verus! {

broadcast use {text::lemma_views_push, text::lemma_views_add};

/// The settings of a run.
#[derive(Debug)]
pub struct Config {
    /// Where projects are looked for.
    pub roots: Vec<String>,
    /// Directories that the user names as build outputs.
    pub build_outputs: Vec<String>,
    /// How deep below a root projects are looked for.
    pub max_depth: usize,
    /// Paths that are left alone, with all below them.
    pub ignore: Vec<String>,
    /// The only Docker context to look at.
    pub docker_context: Option<String>,
    /// The size below which an item is not shown.
    pub min_bytes: u64,
    /// Whether a cleanup only checks.
    pub dry: bool,
    pub home: String,
    pub config_path: String,
}

#[verifier::ext_equal]
pub struct ConfigView {
    pub roots: Seq<Seq<char>>,
    pub build_outputs: Seq<Seq<char>>,
    pub max_depth: nat,
    pub ignore: Seq<Seq<char>>,
    pub docker_context: Option<Seq<char>>,
    pub min_bytes: u64,
    pub dry: bool,
    pub home: Seq<char>,
    pub config_path: Seq<char>,
}

impl View for Config {
    type V = ConfigView;

    open spec fn view(&self) -> ConfigView {
        ConfigView {
            roots: text::views(self.roots@),
            build_outputs: text::views(self.build_outputs@),
            max_depth: self.max_depth as nat,
            ignore: text::views(self.ignore@),
            docker_context: model::optional_text(self.docker_context),
            min_bytes: self.min_bytes,
            dry: self.dry,
            home: self.home@,
            config_path: self.config_path@,
        }
    }
}

/// The settings of a user who has made none.
pub open spec fn defaults() -> ConfigView {
    ConfigView {
        roots: Seq::empty(),
        build_outputs: Seq::empty(),
        max_depth: 16,
        ignore: Seq::empty(),
        docker_context: None,
        min_bytes: 1_000_000,
        dry: false,
        home: Seq::empty(),
        config_path: Seq::empty(),
    }
}

impl Default for Config {
    fn default() -> (r: Self)
        ensures
            r@ == defaults(),
    {
        let r = Config {
            roots: Vec::new(),
            build_outputs: Vec::new(),
            max_depth: 16,
            ignore: Vec::new(),
            docker_context: None,
            min_bytes: 1_000_000,
            dry: false,
            home: String::new(),
            config_path: String::new(),
        };
        assert(r@ =~= defaults());
        r
    }
}

impl Clone for Config {
    fn clone(&self) -> (r: Self)
        ensures
            r@ == self@,
    {
        Config {
            roots: copy_texts(&self.roots),
            build_outputs: copy_texts(&self.build_outputs),
            max_depth: self.max_depth,
            ignore: copy_texts(&self.ignore),
            docker_context: match &self.docker_context {
                Some(c) => Some(c.clone()),
                None => None,
            },
            min_bytes: self.min_bytes,
            dry: self.dry,
            home: self.home.clone(),
            config_path: self.config_path.clone(),
        }
    }
}

/// A path as the user means it: `~` is the home directory.
pub open spec fn expanded(p: Seq<char>, home: Seq<char>) -> Seq<char> {
    if p == "~"@ {
        home
    } else if "~/"@.is_prefix_of(p) {
        path::joined(home, p.skip(2))
    } else {
        p
    }
}

fn expand(p: &str, home: &str) -> (r: String)
    ensures
        r@ == expanded(p@, home@),
{
    proof {
        reveal_strlit("~/");
    }
    if same(p, "~") {
        return home.to_owned();
    }
    match after_prefix(p, "~/") {
        Some(rest) => join(home, rest.as_str()),
        None => p.to_owned(),
    }
}

/// Paths as the user means them.
pub open spec fn all_expanded(paths: Seq<Seq<char>>, home: Seq<char>) -> Seq<Seq<char>> {
    paths.map_values(|p: Seq<char>| expanded(p, home))
}

fn expand_all(paths: &Vec<String>, home: &str) -> (r: Vec<String>)
    ensures
        text::views(r@) == all_expanded(text::views(paths@), home@),
{
    let mut out: Vec<String> = Vec::new();
    let mut i: usize = 0;
    while i < paths.len()
        invariant
            i <= paths@.len(),
            out@.len() == i,
            forall|j: int| 0 <= j < i ==> #[trigger] out@[j]@ == expanded(paths@[j]@, home@),
        decreases paths@.len() - i,
    {
        out.push(expand(paths[i].as_str(), home));
        i += 1;
    }
    assert(text::views(out@) =~= all_expanded(text::views(paths@), home@));
    out
}

/// Where projects are looked for: where the command line says, or else the settings, or else in
/// the home directory.
pub open spec fn chosen_roots(
    set: Seq<Seq<char>>,
    given: Seq<Seq<char>>,
    home: Seq<char>,
) -> Seq<Seq<char>> {
    if given.len() > 0 {
        given
    } else if set.len() > 0 {
        set
    } else {
        seq![home]
    }
}

/// The settings of a run: what the file says, completed by the command line and the defaults.
pub open spec fn loaded(
    set: ConfigView,
    given: Seq<Seq<char>>,
    home: Seq<char>,
    config_path: Seq<char>,
) -> ConfigView {
    ConfigView {
        roots: filesystem::deduplicated(
            filesystem::sorted_paths(all_expanded(chosen_roots(set.roots, given, home), home)),
        ),
        build_outputs: all_expanded(set.build_outputs, home),
        ignore: all_expanded(set.ignore, home),
        home: home,
        config_path: config_path,
        ..set
    }
}

/// The file that settings are read from.
pub fn settings_path(home: &str, xdg_config: &Option<String>) -> (r: String)
    ensures
        r@ == path::joined(
            platform::located(home@, model::optional_text(*xdg_config), ".config"@),
            "cleanix/config.toml"@,
        ),
{
    join(xdg(home, xdg_config, ".config").as_str(), "cleanix/config.toml")
}

impl Config {
    /// Completes the settings that were read, or the defaults where there are none.
    pub fn load(read: Option<Config>, given: &Vec<String>, home: &str, config_path: &str) -> (r:
        Result<Config, String>)
        ensures
            ({
                let set = match read {
                    Some(c) => c@,
                    None => defaults(),
                };
                match r {
                    Ok(c) => 1 <= set.max_depth <= 64 && c@ == loaded(
                        set,
                        text::views(given@),
                        home@,
                        config_path@,
                    ),
                    Err(e) => !(1 <= set.max_depth <= 64) && e@
                        == "max_depth must be between 1 and 64"@,
                }
            }),
    {
        let set = match read {
            Some(c) => c,
            None => Config::default(),
        };
        if set.max_depth < 1 || set.max_depth > 64 {
            return Err("max_depth must be between 1 and 64".to_owned());
        }
        let roots = if given.len() > 0 {
            copy_texts(given)
        } else if set.roots.len() > 0 {
            copy_texts(&set.roots)
        } else {
            let only = vec![home.to_owned()];
            assert(text::views(only@) =~= seq![home@]);
            only
        };
        Ok(
            Config {
                roots: deduplicate(&directories(&expand_all(&roots, home))),
                build_outputs: expand_all(&set.build_outputs, home),
                max_depth: set.max_depth,
                ignore: expand_all(&set.ignore, home),
                docker_context: set.docker_context,
                min_bytes: set.min_bytes,
                dry: set.dry,
                home: home.to_owned(),
                config_path: config_path.to_owned(),
            },
        )
    }

    /// Whether a path is one that is left alone, or lies below one.
    pub fn ignored(&self, p: &str) -> (r: bool)
        ensures
            r == is_ignored(p@, self@.ignore),
    {
        let mut i: usize = 0;
        while i < self.ignore.len()
            invariant
                i <= self.ignore@.len(),
                forall|j: int| 0 <= j < i ==> !path::under(p@, #[trigger] self@.ignore[j]),
            decreases self.ignore@.len() - i,
        {
            assert(self@.ignore[i as int] == self.ignore@[i as int]@);
            if is_under(p, self.ignore[i].as_str()) {
                return true;
            }
            i += 1;
        }
        false
    }
}

/// Whether a path is one of those, or lies below one.
pub open spec fn is_ignored(p: Seq<char>, ignore: Seq<Seq<char>>) -> bool {
    exists|i: int| 0 <= i < ignore.len() && path::under(p, #[trigger] ignore[i])
}

} // verus!
