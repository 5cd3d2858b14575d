//! Further places that fill up: package caches, models, virtual machines, archives, and on macOS the
//! system's own.
use crate::macos;
use crate::macos::{archives, own_leads, Sightings};
use crate::model;
use crate::model::Risk;
use crate::path;
use crate::path::{is_absolute, join};
use crate::platform;
use crate::platform::{cache_home, given_or, place_of, value_of, Platform, Var};
use crate::providers;
use crate::providers::{extend, lead, lead_to, Lead};
use crate::text;
use crate::text::{concat3, decimal_of, list1, list2, list3, list4};
use vstd::prelude::*;
use vstd::string::*;

verus! {

broadcast use {text::lemma_views_push, text::lemma_views_add};

/// What came of listing a directory.
#[derive(Debug)]
pub enum Listed<T> {
    /// It does not exist.
    Missing,
    Failed(String),
    Entries(Vec<T>),
}

/// The entries of a directory.
pub open spec fn entries_in<T>(l: Listed<T>) -> Seq<T> {
    match l {
        Listed::Entries(v) => v@,
        _ => Seq::empty(),
    }
}

/// What is said of a directory that cannot be listed.
pub open spec fn listing_notes<T>(l: Listed<T>, root: Seq<char>) -> Seq<providers::LeadView> {
    match l {
        Listed::Failed(e) => seq![
            providers::LeadView::Note("Skipped "@ + root + ": "@ + e@),
        ],
        _ => Seq::empty(),
    }
}

/// How old a time is, in nanoseconds; nothing where it cannot be told, or lies ahead.
pub type Age = Option<u128>;

/// Three days in seconds.
pub const THREE_DAYS: u64 = 259_200;

/// Whether an age is more than so many seconds.
pub open spec fn older(age: Age, seconds: u64) -> bool {
    age is Some && age->0 > seconds * 1_000_000_000
}

pub fn is_older(age: Age, seconds: u64) -> (r: bool)
    ensures
        r == older(age, seconds),
{
    match age {
        Some(a) => a > seconds as u128 * 1_000_000_000,
        None => false,
    }
}

/// An entry of a tree of temporary files.
#[derive(Debug)]
pub enum Temporary {
    /// It could not be read.
    Failed,
    /// It is a regular file.
    File { path: String, modified: Age, accessed: Age },
    Other,
}

/// The files that were neither changed nor read for three days.
pub open spec fn aged_paths(entries: Seq<Temporary>) -> Seq<Seq<char>>
    decreases entries.len(),
{
    if entries.len() == 0 {
        Seq::empty()
    } else {
        let before = aged_paths(entries.drop_last());
        match entries.last() {
            Temporary::File { path, modified, accessed } => if older(modified, THREE_DAYS) && older(
                accessed,
                THREE_DAYS,
            ) {
                before.push(path@)
            } else {
                before
            },
            _ => before,
        }
    }
}

/// How many entries could not be read.
pub open spec fn failed_count(entries: Seq<Temporary>) -> nat
    decreases entries.len(),
{
    if entries.len() == 0 {
        0
    } else {
        failed_count(entries.drop_last()) + if entries.last() is Failed {
            1nat
        } else {
            0nat
        }
    }
}

/// What is said of the entries that could not be read.
pub open spec fn aged_notes(root: Seq<char>, entries: Seq<Temporary>) -> Seq<providers::LeadView> {
    if failed_count(entries) > 0 {
        seq![
            providers::LeadView::Note(
                text::decimal(failed_count(entries))
                    + " inaccessible temporary branches excluded under "@ + root,
            ),
        ]
    } else {
        Seq::empty()
    }
}

/// The files in a tree that were neither changed nor read for three days; what is said of the rest
/// is added to the steps.
pub fn aged_files(root: &str, entries: &Vec<Temporary>, leads: &mut Vec<Lead>) -> (r: Vec<String>)
    ensures
        text::views(r@) == aged_paths(entries@),
        text::views(final(leads)@) == text::views(old(leads)@) + aged_notes(root@, entries@),
{
    let ghost before = text::views(leads@);
    let mut out: Vec<String> = Vec::new();
    let mut failed: usize = 0;
    let mut i: usize = 0;
    assert(entries@.take(0) =~= Seq::<Temporary>::empty());
    assert(text::views(out@) =~= Seq::<Seq<char>>::empty());
    while i < entries.len()
        invariant
            i <= entries@.len(),
            failed <= i,
            text::views(out@) == aged_paths(entries@.take(i as int)),
            failed == failed_count(entries@.take(i as int)),
        decreases entries@.len() - i,
    {
        assert(entries@.take(i + 1).drop_last() =~= entries@.take(i as int));
        match &entries[i] {
            Temporary::Failed => {
                failed = failed + 1;
            },
            Temporary::File { path, modified, accessed } => {
                if is_older(*modified, THREE_DAYS) && is_older(*accessed, THREE_DAYS) {
                    out.push(path.clone());
                }
            },
            Temporary::Other => {},
        }
        i += 1;
    }
    assert(entries@.take(i as int) =~= entries@);
    if failed > 0 {
        leads.push(
            Lead::Note(
                concat3(
                    decimal_of(failed as u64).as_str(),
                    " inaccessible temporary branches excluded under ",
                    root,
                ),
            ),
        );
    }
    assert(text::views(leads@) =~= before + aged_notes(root@, entries@));
    out
}

/// A recently used file is never among the temporary files that are offered.
pub proof fn law_recent_files_are_kept(entries: Seq<Temporary>, p: Seq<char>)
    requires
        aged_paths(entries).contains(p),
    ensures
        exists|i: int|
            0 <= i < entries.len() && ((#[trigger] entries[i]) matches Temporary::File {
                path,
                modified,
                accessed,
            } && path@ == p && older(modified, THREE_DAYS) && older(accessed, THREE_DAYS)),
    decreases entries.len(),
{
    if entries.len() > 0 {
        let before = aged_paths(entries.drop_last());
        if before.contains(p) {
            law_recent_files_are_kept(entries.drop_last(), p);
            let i = choose|i: int|
                0 <= i < entries.drop_last().len() && ((
                #[trigger] entries.drop_last()[i]) matches Temporary::File {
                    path,
                    modified,
                    accessed,
                } && path@ == p && older(modified, THREE_DAYS) && older(accessed, THREE_DAYS));
            assert(entries[i] == entries.drop_last()[i]);
        } else {
            let after = aged_paths(entries);
            let k = choose|k: int| 0 <= k < after.len() && after[k] == p;
            if k < before.len() {
                assert(before[k] == p);
            }
            assert(entries[entries.len() - 1] == entries.last());
        }
    }
}

/// The caches of applications on macOS.
pub open spec fn app_cache_names() -> Seq<Seq<char>> {
    seq![
        "Library/Application Support/Slack/Cache"@,
        "Library/Application Support/Slack/Service Worker/CacheStorage"@,
        "Library/Application Support/discord/Cache"@,
        "Library/Containers/com.microsoft.teams2/Data/Library/Caches"@,
        "Library/Containers/com.apple.Safari/Data/Library/Caches"@,
        "Library/Containers/com.apple.photolibraryd/Data/Library/Caches"@,
        "Library/Containers/com.apple.mail/Data/Library/Mail Downloads"@,
        "Library/Mail Downloads"@,
        "Library/Application Support/Adobe/Common/Media Cache Files"@,
        "Library/Application Support/Adobe/Common/Media Cache"@,
        "Library/Application Support/Adobe/Adobe Desktop Common/HDBox/Download"@,
    ]
}

/// Names below a directory.
pub open spec fn all_below(home: Seq<char>, names: Seq<Seq<char>>) -> Seq<Seq<char>> {
    names.map_values(|n: Seq<char>| path::joined(home, n))
}

/// The caches of applications on macOS.
pub fn app_paths(home: &str) -> (r: Vec<String>)
    ensures
        text::views(r@) == all_below(home@, app_cache_names()),
{
    let out = vec![
        join(home, "Library/Application Support/Slack/Cache"),
        join(home, "Library/Application Support/Slack/Service Worker/CacheStorage"),
        join(home, "Library/Application Support/discord/Cache"),
        join(home, "Library/Containers/com.microsoft.teams2/Data/Library/Caches"),
        join(home, "Library/Containers/com.apple.Safari/Data/Library/Caches"),
        join(home, "Library/Containers/com.apple.photolibraryd/Data/Library/Caches"),
        join(home, "Library/Containers/com.apple.mail/Data/Library/Mail Downloads"),
        join(home, "Library/Mail Downloads"),
        join(home, "Library/Application Support/Adobe/Common/Media Cache Files"),
        join(home, "Library/Application Support/Adobe/Common/Media Cache"),
        join(home, "Library/Application Support/Adobe/Adobe Desktop Common/HDBox/Download"),
    ];
    assert(text::views(out@) =~= all_below(home@, app_cache_names()));
    out
}

/// The steps that look at the caches of package managers.
pub open spec fn package_leads(on: Platform, home: Seq<char>, vars: Seq<Var>) -> Seq<
    providers::LeadView,
> {
    let to = |name: Seq<char>, paths: Seq<Seq<char>>|
        providers::to_delete(
            "Developer caches"@,
            name,
            "Downloaded packages and indexes. Reinstallation may need network access. Local modifications will be lost."@,
            Risk::Review,
            paths,
        );
    let cache = platform::caches(on, home, platform::value(vars, "XDG_CACHE_HOME"@));
    seq![
        to(
            "Maven & Ivy"@,
            seq![path::joined(home, ".m2/repository"@), path::joined(home, ".ivy2/cache"@)],
        ),
    ] + (if on == Platform::MacOs {
        seq![to("CocoaPods specs"@, seq![path::joined(home, ".cocoapods/repos"@)])]
    } else {
        Seq::empty()
    }) + seq![
        to(
            "Android cache"@,
            seq![
                path::joined(
                    platform::place(vars, home, "ANDROID_USER_HOME"@, ".android"@),
                    "cache"@,
                ),
            ],
        ),
        to(
            "Conda packages"@,
            seq![
                path::joined(home, ".conda/pkgs"@),
                path::joined(home, "miniconda3/pkgs"@),
                path::joined(home, "anaconda3/pkgs"@),
                path::joined(home, "miniforge3/pkgs"@),
            ],
        ),
        to(
            "Deno cache"@,
            seq![
                platform::named_or(
                    platform::value(vars, "DENO_DIR"@),
                    path::joined(cache, "deno"@),
                ),
                path::joined(home, ".deno/deps"@),
                path::joined(home, ".deno/gen"@),
            ],
        ),
        to(
            "Cargo registry"@,
            seq![
                path::joined(
                    platform::place(vars, home, "CARGO_HOME"@, ".cargo"@),
                    "registry"@,
                ),
            ],
        ),
    ]
}

fn packages(on: Platform, home: &str, vars: &Vec<Var>) -> (r: Vec<Lead>)
    ensures
        text::views(r@) == package_leads(on, home@, vars@),
{
    let detail =
        "Downloaded packages and indexes. Reinstallation may need network access. Local modifications will be lost.";
    let c = "Developer caches";
    let cache = cache_home(on, home, &value_of(vars, "XDG_CACHE_HOME"));
    let mut out: Vec<Lead> = Vec::new();
    out.push(
        lead(
            c,
            "Maven & Ivy",
            detail,
            Risk::Review,
            list2(join(home, ".m2/repository"), join(home, ".ivy2/cache")),
        ),
    );
    if on == Platform::MacOs {
        out.push(
            lead(
                c,
                "CocoaPods specs",
                detail,
                Risk::Review,
                list1(join(home, ".cocoapods/repos")),
            ),
        );
    }
    let android = place_of(vars, home, "ANDROID_USER_HOME", ".android");
    out.push(
        lead(
            c,
            "Android cache",
            detail,
            Risk::Review,
            list1(join(android.as_str(), "cache")),
        ),
    );
    out.push(
        lead(
            c,
            "Conda packages",
            detail,
            Risk::Review,
            list4(
                join(home, ".conda/pkgs"),
                join(home, "miniconda3/pkgs"),
                join(home, "anaconda3/pkgs"),
                join(home, "miniforge3/pkgs"),
            ),
        ),
    );
    let deno = given_or(&value_of(vars, "DENO_DIR"), join(cache.as_str(), "deno"));
    out.push(
        lead(
            c,
            "Deno cache",
            detail,
            Risk::Review,
            list3(deno, join(home, ".deno/deps"), join(home, ".deno/gen")),
        ),
    );
    let cargo = place_of(vars, home, "CARGO_HOME", ".cargo");
    out.push(
        lead(
            c,
            "Cargo registry",
            detail,
            Risk::Review,
            list1(join(cargo.as_str(), "registry")),
        ),
    );
    assert(text::views(out@) =~= package_leads(on, home@, vars@));
    out
}

/// Where Go keeps modules: where it says, or else where it usually does.
pub open spec fn go_modules(home: Seq<char>, vars: Seq<Var>, answer: Option<Seq<char>>) -> Seq<char> {
    if answer is Some && path::absolute(answer->0) {
        answer->0
    } else {
        path::joined(platform::place(vars, home, "GOPATH"@, "go"@), "pkg/mod"@)
    }
}

/// The step that looks at the modules of Go; `answer` is what it says of where they are.
pub open spec fn go_lead(home: Seq<char>, vars: Seq<Var>, answer: Option<Seq<char>>) -> providers::LeadView {
    providers::one_to_delete(
        "Developer caches"@,
        "Go modules"@,
        "Downloaded module sources; local changes will be lost."@,
        Risk::Review,
        go_modules(home, vars, answer),
    )
}

fn go(home: &str, vars: &Vec<Var>, answer: &Option<String>) -> (r: Lead)
    ensures
        r@ == go_lead(home@, vars@, model::optional_text(*answer)),
{
    let usual = join(place_of(vars, home, "GOPATH", "go").as_str(), "pkg/mod");
    let at = match answer {
        Some(p) => if is_absolute(p.as_str()) {
            p.clone()
        } else {
            usual
        },
        None => usual,
    };
    lead_to(
        "Developer caches",
        "Go modules",
        "Downloaded module sources; local changes will be lost.",
        Risk::Review,
        at,
    )
}

/// Where Hugging Face keeps what it downloads.
pub open spec fn hugging_face(home: Seq<char>, vars: Seq<Var>) -> Seq<char> {
    platform::named_or(
        platform::value(vars, "HF_HOME"@),
        path::joined(
            platform::place(vars, home, "XDG_CACHE_HOME"@, ".cache"@),
            "huggingface"@,
        ),
    )
}

/// The steps that look at models.
pub open spec fn model_leads(on: Platform, home: Seq<char>, vars: Seq<Var>) -> Seq<
    providers::LeadView,
> {
    let to = |name: Seq<char>, p: Seq<char>|
        providers::one_to_delete(
            "Models & virtual machines"@,
            name,
            "Downloaded models or sandbox images. Local custom assets may be lost; downloading again can be expensive. Stop the owning application first."@,
            Risk::Review,
            p,
        );
    let hf = hugging_face(home, vars);
    let cache = platform::place(vars, home, "XDG_CACHE_HOME"@, ".cache"@);
    seq![
        to("Ollama models"@, platform::place(vars, home, "OLLAMA_MODELS"@, ".ollama/models"@)),
        to("Hugging Face downloads"@, path::joined(hf, "hub"@)),
        to(
            "PyTorch models"@,
            platform::named_or(
                platform::value(vars, "TORCH_HOME"@),
                path::joined(cache, "torch"@),
            ),
        ),
        to("LM Studio models"@, path::joined(home, ".lmstudio/models"@)),
    ] + (if on == Platform::MacOs {
        seq![
            to(
                "Chrome on-device model"@,
                path::joined(
                    home,
                    "Library/Application Support/Google/Chrome/OptGuideOnDeviceModel"@,
                ),
            ),
        ]
    } else {
        Seq::empty()
    }) + seq![
        providers::to_delete(
            "Models & virtual machines"@,
            "Hugging Face datasets & transfer cache"@,
            "Downloaded datasets and transfer cache; credentials and settings are preserved."@,
            Risk::Review,
            seq![
                path::joined(hf, "datasets"@),
                path::joined(hf, "xet"@),
                path::joined(hf, "assets"@),
            ],
        ),
    ]
}

fn models(on: Platform, home: &str, vars: &Vec<Var>) -> (r: Vec<Lead>)
    ensures
        text::views(r@) == model_leads(on, home@, vars@),
{
    let c = "Models & virtual machines";
    let detail =
        "Downloaded models or sandbox images. Local custom assets may be lost; downloading again can be expensive. Stop the owning application first.";
    let cache = place_of(vars, home, "XDG_CACHE_HOME", ".cache");
    let hf = given_or(&value_of(vars, "HF_HOME"), join(cache.as_str(), "huggingface"));
    let torch = given_or(&value_of(vars, "TORCH_HOME"), join(cache.as_str(), "torch"));
    let mut out: Vec<Lead> = Vec::new();
    out.push(
        lead_to(
            c,
            "Ollama models",
            detail,
            Risk::Review,
            place_of(vars, home, "OLLAMA_MODELS", ".ollama/models"),
        ),
    );
    out.push(
        lead_to(c, "Hugging Face downloads", detail, Risk::Review, join(hf.as_str(), "hub")),
    );
    out.push(lead_to(c, "PyTorch models", detail, Risk::Review, torch));
    out.push(
        lead_to(c, "LM Studio models", detail, Risk::Review, join(home, ".lmstudio/models")),
    );
    if on == Platform::MacOs {
        out.push(
            lead_to(
                c,
                "Chrome on-device model",
                detail,
                Risk::Review,
                join(home, "Library/Application Support/Google/Chrome/OptGuideOnDeviceModel"),
            ),
        );
    }
    out.push(
        lead(
            c,
            "Hugging Face datasets & transfer cache",
            "Downloaded datasets and transfer cache; credentials and settings are preserved.",
            Risk::Review,
            list3(
                join(hf.as_str(), "datasets"),
                join(hf.as_str(), "xet"),
                join(hf.as_str(), "assets"),
            ),
        ),
    );
    assert(text::views(out@) =~= model_leads(on, home@, vars@));
    out
}

/// The steps that look at further places; `go_answer` is where Go says that it keeps modules, and
/// `mac` is what was seen, where the platform is macOS.
pub open spec fn extra_leads(
    on: Platform,
    home: Seq<char>,
    vars: Seq<Var>,
    go_answer: Option<Seq<char>>,
    mac: &Sightings,
) -> Seq<providers::LeadView> {
    let first = package_leads(on, home, vars).push(go_lead(home, vars, go_answer));
    match on {
        Platform::Linux => first + model_leads(on, home, vars),
        Platform::MacOs => first + (macos::xcode_support_leads(home) + macos::system_leads(
            home,
            mac,
        )) + model_leads(on, home, vars) + macos::archive_leads(home, mac),
    }
}

/// The steps that look at further places.
pub fn discover(
    on: Platform,
    home: &str,
    vars: &Vec<Var>,
    go_answer: &Option<String>,
    mac: &Sightings,
) -> (r: Vec<Lead>)
    requires
        on == Platform::MacOs ==> macos::complete(mac),
    ensures
        text::views(r@) == extra_leads(
            on,
            home@,
            vars@,
            model::optional_text(*go_answer),
            mac,
        ),
{
    let mut out = packages(on, home, vars);
    out.push(go(home, vars, go_answer));
    match on {
        Platform::Linux => {
            extend(&mut out, models(on, home, vars));
        },
        Platform::MacOs => {
            extend(&mut out, own_leads(home, mac));
            extend(&mut out, models(on, home, vars));
            extend(&mut out, archives(home, mac));
        },
    }
    out
}

} // verus!
