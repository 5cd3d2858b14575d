//! Where caches, packages and models are looked for.
use crate::caches;
use crate::caches::Tools;
use crate::extra;
use crate::laws::places::{
    lemma_in_four, lemma_in_one, lemma_in_three, lemma_in_two, lemma_looked_at_add,
    lemma_looked_at_one, lemma_looked_at_push, lemma_notes_look_at_nothing, looked_at, looks_at,
    only_notes,
};
use crate::macos;
use crate::model::Risk;
use crate::path;
use crate::platform;
use crate::platform::{Platform, Var};
use crate::providers::{LeadView, PurposeView};
use vstd::prelude::*;
use vstd::string::*;

verus! {

/// Where a variable says that something is, if it names an absolute path; otherwise below the home
/// directory.
pub open spec fn said_or(vars: Seq<Var>, home: Seq<char>, name: Seq<char>, usual: Seq<char>) -> Seq<char> {
    match platform::value(vars, name) {
        Some(v) => if path::absolute(v) {
            v
        } else {
            path::joined(home, usual)
        },
        None => path::joined(home, usual),
    }
}

/// Where a variable says that something is; otherwise at a given path.
pub open spec fn told_or(vars: Seq<Var>, name: Seq<char>, usual: Seq<char>) -> Seq<char> {
    match platform::value(vars, name) {
        Some(v) => v,
        None => usual,
    }
}

/// Where caches are kept.
pub open spec fn cache_place(on: Platform, home: Seq<char>, vars: Seq<Var>) -> Seq<char> {
    match on {
        Platform::MacOs => path::joined(home, "Library/Caches"@),
        Platform::Linux => said_or(vars, home, "XDG_CACHE_HOME"@, ".cache"@),
    }
}

/// On Linux the packages of tools are looked for at these places, and no others.
pub proof fn law_packages_are_looked_for_on_linux(
    home: Seq<char>,
    vars: Seq<Var>,
    p: Seq<char>,
    risk: Risk,
    purpose: PurposeView,
)
    ensures
        looked_at(extra::package_leads(Platform::Linux, home, vars), p, risk, purpose) <==> risk == Risk::Review && purpose
            == PurposeView::Delete && (p == path::joined(home, ".m2/repository"@)
                || p == path::joined(home, ".ivy2/cache"@)
                || p == path::joined(said_or(vars, home, "ANDROID_USER_HOME"@, ".android"@), "cache"@)
                || p == path::joined(home, ".conda/pkgs"@)
                || p == path::joined(home, "miniconda3/pkgs"@)
                || p == path::joined(home, "anaconda3/pkgs"@)
                || p == path::joined(home, "miniforge3/pkgs"@)
                || p == told_or(vars, "DENO_DIR"@, path::joined(cache_place(Platform::Linux, home, vars), "deno"@))
                || p == path::joined(home, ".deno/deps"@)
                || p == path::joined(home, ".deno/gen"@)
                || p == path::joined(said_or(vars, home, "CARGO_HOME"@, ".cargo"@), "registry"@)),
{
    let ls = extra::package_leads(Platform::Linux, home, vars);
    assert(ls.len() == 5);
    lemma_in_two(
        path::joined(home, ".m2/repository"@),
        path::joined(home, ".ivy2/cache"@),
        p,
    );
    assert(ls[0]->Paths_0.paths =~= seq![
        path::joined(home, ".m2/repository"@),
        path::joined(home, ".ivy2/cache"@),
    ]);
    lemma_in_one(
        path::joined(said_or(vars, home, "ANDROID_USER_HOME"@, ".android"@), "cache"@),
        p,
    );
    assert(ls[1]->Paths_0.paths =~= seq![
        path::joined(said_or(vars, home, "ANDROID_USER_HOME"@, ".android"@), "cache"@),
    ]);
    lemma_in_four(
        path::joined(home, ".conda/pkgs"@),
        path::joined(home, "miniconda3/pkgs"@),
        path::joined(home, "anaconda3/pkgs"@),
        path::joined(home, "miniforge3/pkgs"@),
        p,
    );
    assert(ls[2]->Paths_0.paths =~= seq![
        path::joined(home, ".conda/pkgs"@),
        path::joined(home, "miniconda3/pkgs"@),
        path::joined(home, "anaconda3/pkgs"@),
        path::joined(home, "miniforge3/pkgs"@),
    ]);
    lemma_in_three(
        told_or(vars, "DENO_DIR"@, path::joined(cache_place(Platform::Linux, home, vars), "deno"@)),
        path::joined(home, ".deno/deps"@),
        path::joined(home, ".deno/gen"@),
        p,
    );
    assert(ls[3]->Paths_0.paths =~= seq![
        told_or(vars, "DENO_DIR"@, path::joined(cache_place(Platform::Linux, home, vars), "deno"@)),
        path::joined(home, ".deno/deps"@),
        path::joined(home, ".deno/gen"@),
    ]);
    lemma_in_one(
        path::joined(said_or(vars, home, "CARGO_HOME"@, ".cargo"@), "registry"@),
        p,
    );
    assert(ls[4]->Paths_0.paths =~= seq![
        path::joined(said_or(vars, home, "CARGO_HOME"@, ".cargo"@), "registry"@),
    ]);
    if looked_at(ls, p, risk, purpose) {
        let i = choose|i: int| 0 <= i < ls.len() && looks_at(#[trigger] ls[i], p, risk, purpose);
        assert(i == 0 || i == 1 || i == 2 || i == 3 || i == 4);
    }
    if risk == Risk::Review && purpose == PurposeView::Delete {
        assert(looks_at(ls[0], p, risk, purpose) ==> looked_at(ls, p, risk, purpose));
        assert(looks_at(ls[1], p, risk, purpose) ==> looked_at(ls, p, risk, purpose));
        assert(looks_at(ls[2], p, risk, purpose) ==> looked_at(ls, p, risk, purpose));
        assert(looks_at(ls[3], p, risk, purpose) ==> looked_at(ls, p, risk, purpose));
        assert(looks_at(ls[4], p, risk, purpose) ==> looked_at(ls, p, risk, purpose));
    }
}

/// On macOS the packages of tools are looked for at these places, and no others.
pub proof fn law_packages_are_looked_for_on_macos(
    home: Seq<char>,
    vars: Seq<Var>,
    p: Seq<char>,
    risk: Risk,
    purpose: PurposeView,
)
    ensures
        looked_at(extra::package_leads(Platform::MacOs, home, vars), p, risk, purpose) <==> risk == Risk::Review && purpose
            == PurposeView::Delete && (p == path::joined(home, ".m2/repository"@)
                || p == path::joined(home, ".ivy2/cache"@)
                || p == path::joined(home, ".cocoapods/repos"@)
                || p == path::joined(said_or(vars, home, "ANDROID_USER_HOME"@, ".android"@), "cache"@)
                || p == path::joined(home, ".conda/pkgs"@)
                || p == path::joined(home, "miniconda3/pkgs"@)
                || p == path::joined(home, "anaconda3/pkgs"@)
                || p == path::joined(home, "miniforge3/pkgs"@)
                || p == told_or(vars, "DENO_DIR"@, path::joined(cache_place(Platform::MacOs, home, vars), "deno"@))
                || p == path::joined(home, ".deno/deps"@)
                || p == path::joined(home, ".deno/gen"@)
                || p == path::joined(said_or(vars, home, "CARGO_HOME"@, ".cargo"@), "registry"@)),
{
    let ls = extra::package_leads(Platform::MacOs, home, vars);
    assert(ls.len() == 6);
    lemma_in_two(
        path::joined(home, ".m2/repository"@),
        path::joined(home, ".ivy2/cache"@),
        p,
    );
    assert(ls[0]->Paths_0.paths =~= seq![
        path::joined(home, ".m2/repository"@),
        path::joined(home, ".ivy2/cache"@),
    ]);
    lemma_in_one(
        path::joined(home, ".cocoapods/repos"@),
        p,
    );
    assert(ls[1]->Paths_0.paths =~= seq![
        path::joined(home, ".cocoapods/repos"@),
    ]);
    lemma_in_one(
        path::joined(said_or(vars, home, "ANDROID_USER_HOME"@, ".android"@), "cache"@),
        p,
    );
    assert(ls[2]->Paths_0.paths =~= seq![
        path::joined(said_or(vars, home, "ANDROID_USER_HOME"@, ".android"@), "cache"@),
    ]);
    lemma_in_four(
        path::joined(home, ".conda/pkgs"@),
        path::joined(home, "miniconda3/pkgs"@),
        path::joined(home, "anaconda3/pkgs"@),
        path::joined(home, "miniforge3/pkgs"@),
        p,
    );
    assert(ls[3]->Paths_0.paths =~= seq![
        path::joined(home, ".conda/pkgs"@),
        path::joined(home, "miniconda3/pkgs"@),
        path::joined(home, "anaconda3/pkgs"@),
        path::joined(home, "miniforge3/pkgs"@),
    ]);
    lemma_in_three(
        told_or(vars, "DENO_DIR"@, path::joined(cache_place(Platform::MacOs, home, vars), "deno"@)),
        path::joined(home, ".deno/deps"@),
        path::joined(home, ".deno/gen"@),
        p,
    );
    assert(ls[4]->Paths_0.paths =~= seq![
        told_or(vars, "DENO_DIR"@, path::joined(cache_place(Platform::MacOs, home, vars), "deno"@)),
        path::joined(home, ".deno/deps"@),
        path::joined(home, ".deno/gen"@),
    ]);
    lemma_in_one(
        path::joined(said_or(vars, home, "CARGO_HOME"@, ".cargo"@), "registry"@),
        p,
    );
    assert(ls[5]->Paths_0.paths =~= seq![
        path::joined(said_or(vars, home, "CARGO_HOME"@, ".cargo"@), "registry"@),
    ]);
    if looked_at(ls, p, risk, purpose) {
        let i = choose|i: int| 0 <= i < ls.len() && looks_at(#[trigger] ls[i], p, risk, purpose);
        assert(i == 0 || i == 1 || i == 2 || i == 3 || i == 4 || i == 5);
    }
    if risk == Risk::Review && purpose == PurposeView::Delete {
        assert(looks_at(ls[0], p, risk, purpose) ==> looked_at(ls, p, risk, purpose));
        assert(looks_at(ls[1], p, risk, purpose) ==> looked_at(ls, p, risk, purpose));
        assert(looks_at(ls[2], p, risk, purpose) ==> looked_at(ls, p, risk, purpose));
        assert(looks_at(ls[3], p, risk, purpose) ==> looked_at(ls, p, risk, purpose));
        assert(looks_at(ls[4], p, risk, purpose) ==> looked_at(ls, p, risk, purpose));
        assert(looks_at(ls[5], p, risk, purpose) ==> looked_at(ls, p, risk, purpose));
    }
}

/// On Linux models are looked for at these places, and no others: tokens and settings stay.
pub proof fn law_models_are_looked_for_on_linux(
    home: Seq<char>,
    vars: Seq<Var>,
    p: Seq<char>,
    risk: Risk,
    purpose: PurposeView,
)
    ensures
        looked_at(extra::model_leads(Platform::Linux, home, vars), p, risk, purpose) <==> risk == Risk::Review && purpose
            == PurposeView::Delete && (p == said_or(vars, home, "OLLAMA_MODELS"@, ".ollama/models"@)
                || p == path::joined(told_or(vars, "HF_HOME"@, path::joined(said_or(vars, home, "XDG_CACHE_HOME"@, ".cache"@), "huggingface"@)), "hub"@)
                || p == told_or(vars, "TORCH_HOME"@, path::joined(said_or(vars, home, "XDG_CACHE_HOME"@, ".cache"@), "torch"@))
                || p == path::joined(home, ".lmstudio/models"@)
                || p == path::joined(told_or(vars, "HF_HOME"@, path::joined(said_or(vars, home, "XDG_CACHE_HOME"@, ".cache"@), "huggingface"@)), "datasets"@)
                || p == path::joined(told_or(vars, "HF_HOME"@, path::joined(said_or(vars, home, "XDG_CACHE_HOME"@, ".cache"@), "huggingface"@)), "xet"@)
                || p == path::joined(told_or(vars, "HF_HOME"@, path::joined(said_or(vars, home, "XDG_CACHE_HOME"@, ".cache"@), "huggingface"@)), "assets"@)),
{
    let ls = extra::model_leads(Platform::Linux, home, vars);
    assert(ls.len() == 5);
    lemma_in_one(
        said_or(vars, home, "OLLAMA_MODELS"@, ".ollama/models"@),
        p,
    );
    assert(ls[0]->Paths_0.paths =~= seq![
        said_or(vars, home, "OLLAMA_MODELS"@, ".ollama/models"@),
    ]);
    lemma_in_one(
        path::joined(told_or(vars, "HF_HOME"@, path::joined(said_or(vars, home, "XDG_CACHE_HOME"@, ".cache"@), "huggingface"@)), "hub"@),
        p,
    );
    assert(ls[1]->Paths_0.paths =~= seq![
        path::joined(told_or(vars, "HF_HOME"@, path::joined(said_or(vars, home, "XDG_CACHE_HOME"@, ".cache"@), "huggingface"@)), "hub"@),
    ]);
    lemma_in_one(
        told_or(vars, "TORCH_HOME"@, path::joined(said_or(vars, home, "XDG_CACHE_HOME"@, ".cache"@), "torch"@)),
        p,
    );
    assert(ls[2]->Paths_0.paths =~= seq![
        told_or(vars, "TORCH_HOME"@, path::joined(said_or(vars, home, "XDG_CACHE_HOME"@, ".cache"@), "torch"@)),
    ]);
    lemma_in_one(
        path::joined(home, ".lmstudio/models"@),
        p,
    );
    assert(ls[3]->Paths_0.paths =~= seq![
        path::joined(home, ".lmstudio/models"@),
    ]);
    lemma_in_three(
        path::joined(told_or(vars, "HF_HOME"@, path::joined(said_or(vars, home, "XDG_CACHE_HOME"@, ".cache"@), "huggingface"@)), "datasets"@),
        path::joined(told_or(vars, "HF_HOME"@, path::joined(said_or(vars, home, "XDG_CACHE_HOME"@, ".cache"@), "huggingface"@)), "xet"@),
        path::joined(told_or(vars, "HF_HOME"@, path::joined(said_or(vars, home, "XDG_CACHE_HOME"@, ".cache"@), "huggingface"@)), "assets"@),
        p,
    );
    assert(ls[4]->Paths_0.paths =~= seq![
        path::joined(told_or(vars, "HF_HOME"@, path::joined(said_or(vars, home, "XDG_CACHE_HOME"@, ".cache"@), "huggingface"@)), "datasets"@),
        path::joined(told_or(vars, "HF_HOME"@, path::joined(said_or(vars, home, "XDG_CACHE_HOME"@, ".cache"@), "huggingface"@)), "xet"@),
        path::joined(told_or(vars, "HF_HOME"@, path::joined(said_or(vars, home, "XDG_CACHE_HOME"@, ".cache"@), "huggingface"@)), "assets"@),
    ]);
    if looked_at(ls, p, risk, purpose) {
        let i = choose|i: int| 0 <= i < ls.len() && looks_at(#[trigger] ls[i], p, risk, purpose);
        assert(i == 0 || i == 1 || i == 2 || i == 3 || i == 4);
    }
    if risk == Risk::Review && purpose == PurposeView::Delete {
        assert(looks_at(ls[0], p, risk, purpose) ==> looked_at(ls, p, risk, purpose));
        assert(looks_at(ls[1], p, risk, purpose) ==> looked_at(ls, p, risk, purpose));
        assert(looks_at(ls[2], p, risk, purpose) ==> looked_at(ls, p, risk, purpose));
        assert(looks_at(ls[3], p, risk, purpose) ==> looked_at(ls, p, risk, purpose));
        assert(looks_at(ls[4], p, risk, purpose) ==> looked_at(ls, p, risk, purpose));
    }
}

/// On macOS models are looked for at these places, and no others: tokens and settings stay.
pub proof fn law_models_are_looked_for_on_macos(
    home: Seq<char>,
    vars: Seq<Var>,
    p: Seq<char>,
    risk: Risk,
    purpose: PurposeView,
)
    ensures
        looked_at(extra::model_leads(Platform::MacOs, home, vars), p, risk, purpose) <==> risk == Risk::Review && purpose
            == PurposeView::Delete && (p == said_or(vars, home, "OLLAMA_MODELS"@, ".ollama/models"@)
                || p == path::joined(told_or(vars, "HF_HOME"@, path::joined(said_or(vars, home, "XDG_CACHE_HOME"@, ".cache"@), "huggingface"@)), "hub"@)
                || p == told_or(vars, "TORCH_HOME"@, path::joined(said_or(vars, home, "XDG_CACHE_HOME"@, ".cache"@), "torch"@))
                || p == path::joined(home, ".lmstudio/models"@)
                || p == path::joined(home, "Library/Application Support/Google/Chrome/OptGuideOnDeviceModel"@)
                || p == path::joined(told_or(vars, "HF_HOME"@, path::joined(said_or(vars, home, "XDG_CACHE_HOME"@, ".cache"@), "huggingface"@)), "datasets"@)
                || p == path::joined(told_or(vars, "HF_HOME"@, path::joined(said_or(vars, home, "XDG_CACHE_HOME"@, ".cache"@), "huggingface"@)), "xet"@)
                || p == path::joined(told_or(vars, "HF_HOME"@, path::joined(said_or(vars, home, "XDG_CACHE_HOME"@, ".cache"@), "huggingface"@)), "assets"@)),
{
    let ls = extra::model_leads(Platform::MacOs, home, vars);
    assert(ls.len() == 6);
    lemma_in_one(
        said_or(vars, home, "OLLAMA_MODELS"@, ".ollama/models"@),
        p,
    );
    assert(ls[0]->Paths_0.paths =~= seq![
        said_or(vars, home, "OLLAMA_MODELS"@, ".ollama/models"@),
    ]);
    lemma_in_one(
        path::joined(told_or(vars, "HF_HOME"@, path::joined(said_or(vars, home, "XDG_CACHE_HOME"@, ".cache"@), "huggingface"@)), "hub"@),
        p,
    );
    assert(ls[1]->Paths_0.paths =~= seq![
        path::joined(told_or(vars, "HF_HOME"@, path::joined(said_or(vars, home, "XDG_CACHE_HOME"@, ".cache"@), "huggingface"@)), "hub"@),
    ]);
    lemma_in_one(
        told_or(vars, "TORCH_HOME"@, path::joined(said_or(vars, home, "XDG_CACHE_HOME"@, ".cache"@), "torch"@)),
        p,
    );
    assert(ls[2]->Paths_0.paths =~= seq![
        told_or(vars, "TORCH_HOME"@, path::joined(said_or(vars, home, "XDG_CACHE_HOME"@, ".cache"@), "torch"@)),
    ]);
    lemma_in_one(
        path::joined(home, ".lmstudio/models"@),
        p,
    );
    assert(ls[3]->Paths_0.paths =~= seq![
        path::joined(home, ".lmstudio/models"@),
    ]);
    lemma_in_one(
        path::joined(home, "Library/Application Support/Google/Chrome/OptGuideOnDeviceModel"@),
        p,
    );
    assert(ls[4]->Paths_0.paths =~= seq![
        path::joined(home, "Library/Application Support/Google/Chrome/OptGuideOnDeviceModel"@),
    ]);
    lemma_in_three(
        path::joined(told_or(vars, "HF_HOME"@, path::joined(said_or(vars, home, "XDG_CACHE_HOME"@, ".cache"@), "huggingface"@)), "datasets"@),
        path::joined(told_or(vars, "HF_HOME"@, path::joined(said_or(vars, home, "XDG_CACHE_HOME"@, ".cache"@), "huggingface"@)), "xet"@),
        path::joined(told_or(vars, "HF_HOME"@, path::joined(said_or(vars, home, "XDG_CACHE_HOME"@, ".cache"@), "huggingface"@)), "assets"@),
        p,
    );
    assert(ls[5]->Paths_0.paths =~= seq![
        path::joined(told_or(vars, "HF_HOME"@, path::joined(said_or(vars, home, "XDG_CACHE_HOME"@, ".cache"@), "huggingface"@)), "datasets"@),
        path::joined(told_or(vars, "HF_HOME"@, path::joined(said_or(vars, home, "XDG_CACHE_HOME"@, ".cache"@), "huggingface"@)), "xet"@),
        path::joined(told_or(vars, "HF_HOME"@, path::joined(said_or(vars, home, "XDG_CACHE_HOME"@, ".cache"@), "huggingface"@)), "assets"@),
    ]);
    if looked_at(ls, p, risk, purpose) {
        let i = choose|i: int| 0 <= i < ls.len() && looks_at(#[trigger] ls[i], p, risk, purpose);
        assert(i == 0 || i == 1 || i == 2 || i == 3 || i == 4 || i == 5);
    }
    if risk == Risk::Review && purpose == PurposeView::Delete {
        assert(looks_at(ls[0], p, risk, purpose) ==> looked_at(ls, p, risk, purpose));
        assert(looks_at(ls[1], p, risk, purpose) ==> looked_at(ls, p, risk, purpose));
        assert(looks_at(ls[2], p, risk, purpose) ==> looked_at(ls, p, risk, purpose));
        assert(looks_at(ls[3], p, risk, purpose) ==> looked_at(ls, p, risk, purpose));
        assert(looks_at(ls[4], p, risk, purpose) ==> looked_at(ls, p, risk, purpose));
        assert(looks_at(ls[5], p, risk, purpose) ==> looked_at(ls, p, risk, purpose));
    }
}

/// What Xcode keeps for devices is looked for at these places, and no others.
pub proof fn law_xcode_support_is_looked_for(
    home: Seq<char>,
    p: Seq<char>,
    risk: Risk,
    purpose: PurposeView,
)
    ensures
        looked_at(macos::xcode_support_leads(home), p, risk, purpose) <==> risk == Risk::Rebuild && purpose
            == PurposeView::Delete && (p == path::joined(path::joined(home, "Library/Developer/Xcode"@), "tvOS DeviceSupport"@)
                || p == path::joined(path::joined(home, "Library/Developer/Xcode"@), "visionOS DeviceSupport"@)
                || p == path::joined(path::joined(home, "Library/Developer/Xcode"@), "iOS Device Logs"@)
                || p == path::joined(home, "Library/Developer/CoreSimulator/Caches/dyld"@)),
{
    let ls = macos::xcode_support_leads(home);
    assert(ls.len() == 4);
    lemma_in_one(
        path::joined(path::joined(home, "Library/Developer/Xcode"@), "tvOS DeviceSupport"@),
        p,
    );
    assert(ls[0]->Paths_0.paths =~= seq![
        path::joined(path::joined(home, "Library/Developer/Xcode"@), "tvOS DeviceSupport"@),
    ]);
    lemma_in_one(
        path::joined(path::joined(home, "Library/Developer/Xcode"@), "visionOS DeviceSupport"@),
        p,
    );
    assert(ls[1]->Paths_0.paths =~= seq![
        path::joined(path::joined(home, "Library/Developer/Xcode"@), "visionOS DeviceSupport"@),
    ]);
    lemma_in_one(
        path::joined(path::joined(home, "Library/Developer/Xcode"@), "iOS Device Logs"@),
        p,
    );
    assert(ls[2]->Paths_0.paths =~= seq![
        path::joined(path::joined(home, "Library/Developer/Xcode"@), "iOS Device Logs"@),
    ]);
    lemma_in_one(
        path::joined(home, "Library/Developer/CoreSimulator/Caches/dyld"@),
        p,
    );
    assert(ls[3]->Paths_0.paths =~= seq![
        path::joined(home, "Library/Developer/CoreSimulator/Caches/dyld"@),
    ]);
    if looked_at(ls, p, risk, purpose) {
        let i = choose|i: int| 0 <= i < ls.len() && looks_at(#[trigger] ls[i], p, risk, purpose);
        assert(i == 0 || i == 1 || i == 2 || i == 3);
    }
    if risk == Risk::Rebuild && purpose == PurposeView::Delete {
        assert(looks_at(ls[0], p, risk, purpose) ==> looked_at(ls, p, risk, purpose));
        assert(looks_at(ls[1], p, risk, purpose) ==> looked_at(ls, p, risk, purpose));
        assert(looks_at(ls[2], p, risk, purpose) ==> looked_at(ls, p, risk, purpose));
        assert(looks_at(ls[3], p, risk, purpose) ==> looked_at(ls, p, risk, purpose));
    }
}

/// Of version managers only downloads and temporary files are looked for: what they installed stays.
pub proof fn law_downloads_of_version_managers_are_looked_for(
    home: Seq<char>,
    vars: Seq<Var>,
    p: Seq<char>,
    risk: Risk,
    purpose: PurposeView,
)
    ensures
        looked_at(crate::stores::download_leads(home, vars), p, risk, purpose) <==> risk == Risk::Rebuild && purpose
            == PurposeView::Delete && (p == path::joined(said_or(vars, home, "NVM_DIR"@, ".nvm"@), ".cache"@)
                || p == path::joined(said_or(vars, home, "RUSTUP_HOME"@, ".rustup"@), "downloads"@)
                || p == path::joined(said_or(vars, home, "RUSTUP_HOME"@, ".rustup"@), "tmp"@)
                || p == path::joined(said_or(vars, home, "PYENV_ROOT"@, ".pyenv"@), "cache"@)
                || p == path::joined(said_or(vars, home, "RBENV_ROOT"@, ".rbenv"@), "cache"@)
                || p == path::joined(said_or(vars, home, "SDKMAN_DIR"@, ".sdkman"@), "archives"@)
                || p == path::joined(said_or(vars, home, "SDKMAN_DIR"@, ".sdkman"@), "tmp"@)),
{
    let ls = crate::stores::download_leads(home, vars);
    assert(ls.len() == 5);
    lemma_in_one(
        path::joined(said_or(vars, home, "NVM_DIR"@, ".nvm"@), ".cache"@),
        p,
    );
    assert(ls[0]->Paths_0.paths =~= seq![
        path::joined(said_or(vars, home, "NVM_DIR"@, ".nvm"@), ".cache"@),
    ]);
    lemma_in_two(
        path::joined(said_or(vars, home, "RUSTUP_HOME"@, ".rustup"@), "downloads"@),
        path::joined(said_or(vars, home, "RUSTUP_HOME"@, ".rustup"@), "tmp"@),
        p,
    );
    assert(ls[1]->Paths_0.paths =~= seq![
        path::joined(said_or(vars, home, "RUSTUP_HOME"@, ".rustup"@), "downloads"@),
        path::joined(said_or(vars, home, "RUSTUP_HOME"@, ".rustup"@), "tmp"@),
    ]);
    lemma_in_one(
        path::joined(said_or(vars, home, "PYENV_ROOT"@, ".pyenv"@), "cache"@),
        p,
    );
    assert(ls[2]->Paths_0.paths =~= seq![
        path::joined(said_or(vars, home, "PYENV_ROOT"@, ".pyenv"@), "cache"@),
    ]);
    lemma_in_one(
        path::joined(said_or(vars, home, "RBENV_ROOT"@, ".rbenv"@), "cache"@),
        p,
    );
    assert(ls[3]->Paths_0.paths =~= seq![
        path::joined(said_or(vars, home, "RBENV_ROOT"@, ".rbenv"@), "cache"@),
    ]);
    lemma_in_two(
        path::joined(said_or(vars, home, "SDKMAN_DIR"@, ".sdkman"@), "archives"@),
        path::joined(said_or(vars, home, "SDKMAN_DIR"@, ".sdkman"@), "tmp"@),
        p,
    );
    assert(ls[4]->Paths_0.paths =~= seq![
        path::joined(said_or(vars, home, "SDKMAN_DIR"@, ".sdkman"@), "archives"@),
        path::joined(said_or(vars, home, "SDKMAN_DIR"@, ".sdkman"@), "tmp"@),
    ]);
    if looked_at(ls, p, risk, purpose) {
        let i = choose|i: int| 0 <= i < ls.len() && looks_at(#[trigger] ls[i], p, risk, purpose);
        assert(i == 0 || i == 1 || i == 2 || i == 3 || i == 4);
    }
    if risk == Risk::Rebuild && purpose == PurposeView::Delete {
        assert(looks_at(ls[0], p, risk, purpose) ==> looked_at(ls, p, risk, purpose));
        assert(looks_at(ls[1], p, risk, purpose) ==> looked_at(ls, p, risk, purpose));
        assert(looks_at(ls[2], p, risk, purpose) ==> looked_at(ls, p, risk, purpose));
        assert(looks_at(ls[3], p, risk, purpose) ==> looked_at(ls, p, risk, purpose));
        assert(looks_at(ls[4], p, risk, purpose) ==> looked_at(ls, p, risk, purpose));
    }
}

/// Where package managers keep their caches on Linux without being asked; that of uv counts only while no uv
/// runs.
pub open spec fn usual_linux_place(
    home: Seq<char>,
    vars: Seq<Var>,
    t: &Tools,
    p: Seq<char>,
) -> bool {
    p == path::joined(told_or(vars, "GRADLE_USER_HOME"@, path::joined(home, ".gradle"@)), "caches"@)
            || p == path::joined(told_or(vars, "GRADLE_USER_HOME"@, path::joined(home, ".gradle"@)), "wrapper/dists"@)
            || p == told_or(vars, "BUN_INSTALL_CACHE_DIR"@, path::joined(home, ".bun/install/cache"@))
            || (!t.uv_runs && p == told_or(vars, "UV_CACHE_DIR"@, path::joined(cache_place(Platform::Linux, home, vars), "uv"@)))
            || p == path::joined(told_or(vars, "CARGO_HOME"@, path::joined(home, ".cargo"@)), "registry/cache"@)
            || p == path::joined(home, ".expo/cache"@)
            || p == path::joined(cache_place(Platform::Linux, home, vars), "yarn"@)
            || p == path::joined(cache_place(Platform::Linux, home, vars), "ms-playwright"@)
            || p == told_or(vars, "PIP_CACHE_DIR"@, path::joined(cache_place(Platform::Linux, home, vars), "pip"@))
            || p == path::joined(cache_place(Platform::Linux, home, vars), "org.swift.swiftpm"@)
            || p == path::joined(cache_place(Platform::Linux, home, vars), "Homebrew"@)
}

proof fn lemma_usual_linux(
    home: Seq<char>,
    vars: Seq<Var>,
    t: &Tools,
    p: Seq<char>,
    risk: Risk,
    purpose: PurposeView,
)
    ensures
        looked_at(
            caches::usual_places(Platform::Linux, home, vars).map_values(
                |q: caches::Place| caches::place_lead(q, t.uv_runs),
            ),
            p,
            risk,
            purpose,
        ) <==> risk == Risk::Rebuild && purpose == PurposeView::Delete && usual_linux_place(
            home,
            vars,
            t,
            p,
        ),
{
    let qs = caches::usual_places(Platform::Linux, home, vars);
    let ls = qs.map_values(|q: caches::Place| caches::place_lead(q, t.uv_runs));
    assert(qs.len() == 11);
    reveal_strlit("uv");
    reveal_strlit("Bun");
    reveal_strlit("Cargo registry downloads");
    reveal_strlit("Expo");
    reveal_strlit("Gradle cache");
    reveal_strlit("Gradle distributions");
    reveal_strlit("Homebrew downloads");
    reveal_strlit("Playwright browsers");
    reveal_strlit("SwiftPM");
    reveal_strlit("Yarn");
    reveal_strlit("pip");
    lemma_in_one(path::joined(told_or(vars, "GRADLE_USER_HOME"@, path::joined(home, ".gradle"@)), "caches"@), p);
    assert(qs[0].path == path::joined(told_or(vars, "GRADLE_USER_HOME"@, path::joined(home, ".gradle"@)), "caches"@));
    assert(qs[0].name.len() > 2);
    assert(looks_at(ls[0], p, risk, purpose) <==> risk == Risk::Rebuild && purpose == PurposeView::Delete && p == path::joined(told_or(vars, "GRADLE_USER_HOME"@, path::joined(home, ".gradle"@)), "caches"@));
    lemma_in_one(path::joined(told_or(vars, "GRADLE_USER_HOME"@, path::joined(home, ".gradle"@)), "wrapper/dists"@), p);
    assert(qs[1].path == path::joined(told_or(vars, "GRADLE_USER_HOME"@, path::joined(home, ".gradle"@)), "wrapper/dists"@));
    assert(qs[1].name.len() > 2);
    assert(looks_at(ls[1], p, risk, purpose) <==> risk == Risk::Rebuild && purpose == PurposeView::Delete && p == path::joined(told_or(vars, "GRADLE_USER_HOME"@, path::joined(home, ".gradle"@)), "wrapper/dists"@));
    lemma_in_one(told_or(vars, "BUN_INSTALL_CACHE_DIR"@, path::joined(home, ".bun/install/cache"@)), p);
    assert(qs[2].path == told_or(vars, "BUN_INSTALL_CACHE_DIR"@, path::joined(home, ".bun/install/cache"@)));
    assert(qs[2].name.len() > 2);
    assert(looks_at(ls[2], p, risk, purpose) <==> risk == Risk::Rebuild && purpose == PurposeView::Delete && p == told_or(vars, "BUN_INSTALL_CACHE_DIR"@, path::joined(home, ".bun/install/cache"@)));
    lemma_in_one(told_or(vars, "UV_CACHE_DIR"@, path::joined(cache_place(Platform::Linux, home, vars), "uv"@)), p);
    assert(qs[3].path == told_or(vars, "UV_CACHE_DIR"@, path::joined(cache_place(Platform::Linux, home, vars), "uv"@)));
    assert(qs[3].name == "uv"@);
    assert(looks_at(ls[3], p, risk, purpose) <==> !t.uv_runs && risk == Risk::Rebuild && purpose == PurposeView::Delete && p == told_or(vars, "UV_CACHE_DIR"@, path::joined(cache_place(Platform::Linux, home, vars), "uv"@)));
    lemma_in_one(path::joined(told_or(vars, "CARGO_HOME"@, path::joined(home, ".cargo"@)), "registry/cache"@), p);
    assert(qs[4].path == path::joined(told_or(vars, "CARGO_HOME"@, path::joined(home, ".cargo"@)), "registry/cache"@));
    assert(qs[4].name.len() > 2);
    assert(looks_at(ls[4], p, risk, purpose) <==> risk == Risk::Rebuild && purpose == PurposeView::Delete && p == path::joined(told_or(vars, "CARGO_HOME"@, path::joined(home, ".cargo"@)), "registry/cache"@));
    lemma_in_one(path::joined(home, ".expo/cache"@), p);
    assert(qs[5].path == path::joined(home, ".expo/cache"@));
    assert(qs[5].name.len() > 2);
    assert(looks_at(ls[5], p, risk, purpose) <==> risk == Risk::Rebuild && purpose == PurposeView::Delete && p == path::joined(home, ".expo/cache"@));
    lemma_in_one(path::joined(cache_place(Platform::Linux, home, vars), "yarn"@), p);
    assert(qs[6].path == path::joined(cache_place(Platform::Linux, home, vars), "yarn"@));
    assert(qs[6].name.len() > 2);
    assert(looks_at(ls[6], p, risk, purpose) <==> risk == Risk::Rebuild && purpose == PurposeView::Delete && p == path::joined(cache_place(Platform::Linux, home, vars), "yarn"@));
    lemma_in_one(path::joined(cache_place(Platform::Linux, home, vars), "ms-playwright"@), p);
    assert(qs[7].path == path::joined(cache_place(Platform::Linux, home, vars), "ms-playwright"@));
    assert(qs[7].name.len() > 2);
    assert(looks_at(ls[7], p, risk, purpose) <==> risk == Risk::Rebuild && purpose == PurposeView::Delete && p == path::joined(cache_place(Platform::Linux, home, vars), "ms-playwright"@));
    lemma_in_one(told_or(vars, "PIP_CACHE_DIR"@, path::joined(cache_place(Platform::Linux, home, vars), "pip"@)), p);
    assert(qs[8].path == told_or(vars, "PIP_CACHE_DIR"@, path::joined(cache_place(Platform::Linux, home, vars), "pip"@)));
    assert(qs[8].name.len() > 2);
    assert(looks_at(ls[8], p, risk, purpose) <==> risk == Risk::Rebuild && purpose == PurposeView::Delete && p == told_or(vars, "PIP_CACHE_DIR"@, path::joined(cache_place(Platform::Linux, home, vars), "pip"@)));
    lemma_in_one(path::joined(cache_place(Platform::Linux, home, vars), "org.swift.swiftpm"@), p);
    assert(qs[9].path == path::joined(cache_place(Platform::Linux, home, vars), "org.swift.swiftpm"@));
    assert(qs[9].name.len() > 2);
    assert(looks_at(ls[9], p, risk, purpose) <==> risk == Risk::Rebuild && purpose == PurposeView::Delete && p == path::joined(cache_place(Platform::Linux, home, vars), "org.swift.swiftpm"@));
    lemma_in_one(path::joined(cache_place(Platform::Linux, home, vars), "Homebrew"@), p);
    assert(qs[10].path == path::joined(cache_place(Platform::Linux, home, vars), "Homebrew"@));
    assert(qs[10].name.len() > 2);
    assert(looks_at(ls[10], p, risk, purpose) <==> risk == Risk::Rebuild && purpose == PurposeView::Delete && p == path::joined(cache_place(Platform::Linux, home, vars), "Homebrew"@));
    if looked_at(ls, p, risk, purpose) {
        let i = choose|i: int| 0 <= i < ls.len() && looks_at(#[trigger] ls[i], p, risk, purpose);
        assert(i == 0 || i == 1 || i == 2 || i == 3 || i == 4 || i == 5 || i == 6 || i == 7 || i == 8 || i == 9 || i == 10);
    }
}

/// Where package managers keep their caches on macOS without being asked; that of uv counts only while no uv
/// runs.
pub open spec fn usual_macos_place(
    home: Seq<char>,
    vars: Seq<Var>,
    t: &Tools,
    p: Seq<char>,
) -> bool {
    p == path::joined(told_or(vars, "GRADLE_USER_HOME"@, path::joined(home, ".gradle"@)), "caches"@)
            || p == path::joined(told_or(vars, "GRADLE_USER_HOME"@, path::joined(home, ".gradle"@)), "wrapper/dists"@)
            || p == path::joined(home, "Library/Caches/CocoaPods"@)
            || p == told_or(vars, "BUN_INSTALL_CACHE_DIR"@, path::joined(home, ".bun/install/cache"@))
            || p == path::joined(home, "Library/Caches/Yarn"@)
            || p == path::joined(home, "Library/Caches/ms-playwright"@)
            || p == path::joined(home, "Library/Caches/org.swift.swiftpm"@)
            || p == path::joined(home, "Library/Caches/Homebrew"@)
            || p == path::joined(home, "Library/Caches/pip"@)
            || (!t.uv_runs && p == told_or(vars, "UV_CACHE_DIR"@, path::joined(home, ".cache/uv"@)))
            || p == path::joined(told_or(vars, "CARGO_HOME"@, path::joined(home, ".cargo"@)), "registry/cache"@)
            || p == path::joined(home, ".expo/cache"@)
}

proof fn lemma_usual_macos(
    home: Seq<char>,
    vars: Seq<Var>,
    t: &Tools,
    p: Seq<char>,
    risk: Risk,
    purpose: PurposeView,
)
    ensures
        looked_at(
            caches::usual_places(Platform::MacOs, home, vars).map_values(
                |q: caches::Place| caches::place_lead(q, t.uv_runs),
            ),
            p,
            risk,
            purpose,
        ) <==> risk == Risk::Rebuild && purpose == PurposeView::Delete && usual_macos_place(
            home,
            vars,
            t,
            p,
        ),
{
    let qs = caches::usual_places(Platform::MacOs, home, vars);
    let ls = qs.map_values(|q: caches::Place| caches::place_lead(q, t.uv_runs));
    assert(qs.len() == 12);
    reveal_strlit("uv");
    reveal_strlit("Bun");
    reveal_strlit("Cargo registry downloads");
    reveal_strlit("CocoaPods");
    reveal_strlit("Expo");
    reveal_strlit("Gradle cache");
    reveal_strlit("Gradle distributions");
    reveal_strlit("Homebrew downloads");
    reveal_strlit("Playwright browsers");
    reveal_strlit("SwiftPM");
    reveal_strlit("Yarn");
    reveal_strlit("pip");
    lemma_in_one(path::joined(told_or(vars, "GRADLE_USER_HOME"@, path::joined(home, ".gradle"@)), "caches"@), p);
    assert(qs[0].path == path::joined(told_or(vars, "GRADLE_USER_HOME"@, path::joined(home, ".gradle"@)), "caches"@));
    assert(qs[0].name.len() > 2);
    assert(looks_at(ls[0], p, risk, purpose) <==> risk == Risk::Rebuild && purpose == PurposeView::Delete && p == path::joined(told_or(vars, "GRADLE_USER_HOME"@, path::joined(home, ".gradle"@)), "caches"@));
    lemma_in_one(path::joined(told_or(vars, "GRADLE_USER_HOME"@, path::joined(home, ".gradle"@)), "wrapper/dists"@), p);
    assert(qs[1].path == path::joined(told_or(vars, "GRADLE_USER_HOME"@, path::joined(home, ".gradle"@)), "wrapper/dists"@));
    assert(qs[1].name.len() > 2);
    assert(looks_at(ls[1], p, risk, purpose) <==> risk == Risk::Rebuild && purpose == PurposeView::Delete && p == path::joined(told_or(vars, "GRADLE_USER_HOME"@, path::joined(home, ".gradle"@)), "wrapper/dists"@));
    lemma_in_one(path::joined(home, "Library/Caches/CocoaPods"@), p);
    assert(qs[2].path == path::joined(home, "Library/Caches/CocoaPods"@));
    assert(qs[2].name.len() > 2);
    assert(looks_at(ls[2], p, risk, purpose) <==> risk == Risk::Rebuild && purpose == PurposeView::Delete && p == path::joined(home, "Library/Caches/CocoaPods"@));
    lemma_in_one(told_or(vars, "BUN_INSTALL_CACHE_DIR"@, path::joined(home, ".bun/install/cache"@)), p);
    assert(qs[3].path == told_or(vars, "BUN_INSTALL_CACHE_DIR"@, path::joined(home, ".bun/install/cache"@)));
    assert(qs[3].name.len() > 2);
    assert(looks_at(ls[3], p, risk, purpose) <==> risk == Risk::Rebuild && purpose == PurposeView::Delete && p == told_or(vars, "BUN_INSTALL_CACHE_DIR"@, path::joined(home, ".bun/install/cache"@)));
    lemma_in_one(path::joined(home, "Library/Caches/Yarn"@), p);
    assert(qs[4].path == path::joined(home, "Library/Caches/Yarn"@));
    assert(qs[4].name.len() > 2);
    assert(looks_at(ls[4], p, risk, purpose) <==> risk == Risk::Rebuild && purpose == PurposeView::Delete && p == path::joined(home, "Library/Caches/Yarn"@));
    lemma_in_one(path::joined(home, "Library/Caches/ms-playwright"@), p);
    assert(qs[5].path == path::joined(home, "Library/Caches/ms-playwright"@));
    assert(qs[5].name.len() > 2);
    assert(looks_at(ls[5], p, risk, purpose) <==> risk == Risk::Rebuild && purpose == PurposeView::Delete && p == path::joined(home, "Library/Caches/ms-playwright"@));
    lemma_in_one(path::joined(home, "Library/Caches/org.swift.swiftpm"@), p);
    assert(qs[6].path == path::joined(home, "Library/Caches/org.swift.swiftpm"@));
    assert(qs[6].name.len() > 2);
    assert(looks_at(ls[6], p, risk, purpose) <==> risk == Risk::Rebuild && purpose == PurposeView::Delete && p == path::joined(home, "Library/Caches/org.swift.swiftpm"@));
    lemma_in_one(path::joined(home, "Library/Caches/Homebrew"@), p);
    assert(qs[7].path == path::joined(home, "Library/Caches/Homebrew"@));
    assert(qs[7].name.len() > 2);
    assert(looks_at(ls[7], p, risk, purpose) <==> risk == Risk::Rebuild && purpose == PurposeView::Delete && p == path::joined(home, "Library/Caches/Homebrew"@));
    lemma_in_one(path::joined(home, "Library/Caches/pip"@), p);
    assert(qs[8].path == path::joined(home, "Library/Caches/pip"@));
    assert(qs[8].name.len() > 2);
    assert(looks_at(ls[8], p, risk, purpose) <==> risk == Risk::Rebuild && purpose == PurposeView::Delete && p == path::joined(home, "Library/Caches/pip"@));
    lemma_in_one(told_or(vars, "UV_CACHE_DIR"@, path::joined(home, ".cache/uv"@)), p);
    assert(qs[9].path == told_or(vars, "UV_CACHE_DIR"@, path::joined(home, ".cache/uv"@)));
    assert(qs[9].name == "uv"@);
    assert(looks_at(ls[9], p, risk, purpose) <==> !t.uv_runs && risk == Risk::Rebuild && purpose == PurposeView::Delete && p == told_or(vars, "UV_CACHE_DIR"@, path::joined(home, ".cache/uv"@)));
    lemma_in_one(path::joined(told_or(vars, "CARGO_HOME"@, path::joined(home, ".cargo"@)), "registry/cache"@), p);
    assert(qs[10].path == path::joined(told_or(vars, "CARGO_HOME"@, path::joined(home, ".cargo"@)), "registry/cache"@));
    assert(qs[10].name.len() > 2);
    assert(looks_at(ls[10], p, risk, purpose) <==> risk == Risk::Rebuild && purpose == PurposeView::Delete && p == path::joined(told_or(vars, "CARGO_HOME"@, path::joined(home, ".cargo"@)), "registry/cache"@));
    lemma_in_one(path::joined(home, ".expo/cache"@), p);
    assert(qs[11].path == path::joined(home, ".expo/cache"@));
    assert(qs[11].name.len() > 2);
    assert(looks_at(ls[11], p, risk, purpose) <==> risk == Risk::Rebuild && purpose == PurposeView::Delete && p == path::joined(home, ".expo/cache"@));
    if looked_at(ls, p, risk, purpose) {
        let i = choose|i: int| 0 <= i < ls.len() && looks_at(#[trigger] ls[i], p, risk, purpose);
        assert(i == 0 || i == 1 || i == 2 || i == 3 || i == 4 || i == 5 || i == 6 || i == 7 || i == 8 || i == 9 || i == 10 || i == 11);
    }
}

/// Where a tool says that something is, if it named an absolute path.
pub open spec fn told_place(a: caches::Answer) -> Option<Seq<char>> {
    match a {
        Some(Some(p)) => if path::absolute(p@) {
            Some(p@)
        } else {
            None
        },
        _ => None,
    }
}

/// Whether a path is one of the caches that package managers name themselves: those of npm where it
/// says or in the home directory, the store of pnpm where it says or, where it is not installed, at
/// its usual place, and that of Go where it says or, where it is not installed, at its usual place.
pub open spec fn told_by_manager(
    on: Platform,
    home: Seq<char>,
    vars: Seq<Var>,
    t: &Tools,
    p: Seq<char>,
) -> bool {
    let npm = match told_place(t.npm) {
        Some(q) => q,
        None => path::joined(home, ".npm"@),
    };
    ||| p == path::joined(npm, "_cacache"@) || p == path::joined(npm, "_npx"@)
    ||| told_place(t.pnpm) == Some(p)
    ||| t.pnpm is None && on == Platform::MacOs && (t.pnpm_usual matches Some(q) && q@ == p)
    ||| t.pnpm is None && on == Platform::Linux && p == path::joined(
        said_or(vars, home, "XDG_DATA_HOME"@, ".local/share"@),
        "pnpm/store"@,
    )
    ||| told_place(t.go) == Some(p)
    ||| t.go is None && p == path::joined(cache_place(on, home, vars), "go-build"@)
}

proof fn lemma_place_lead(q: caches::Place, uv_runs: bool, p: Seq<char>, risk: Risk, purpose: PurposeView)
    requires
        q.name.len() > 2,
    ensures
        looks_at(caches::place_lead(q, uv_runs), p, risk, purpose) <==> risk == Risk::Rebuild
            && purpose == PurposeView::Delete && q.path == p,
{
    reveal_strlit("uv");
    lemma_in_one(q.path, p);
}

proof fn lemma_at_most(q: Option<caches::Place>, uv_runs: bool, p: Seq<char>, risk: Risk, purpose: PurposeView)
    requires
        q matches Some(q) ==> q.name.len() > 2,
    ensures
        looked_at(
            caches::at_most(q).map_values(|q: caches::Place| caches::place_lead(q, uv_runs)),
            p,
            risk,
            purpose,
        ) <==> risk == Risk::Rebuild && purpose == PurposeView::Delete && (q matches Some(q)
            && q.path == p),
{
    let ls = caches::at_most(q).map_values(|q: caches::Place| caches::place_lead(q, uv_runs));
    if let Some(q) = q {
        lemma_place_lead(q, uv_runs, p, risk, purpose);
        assert(ls =~= seq![caches::place_lead(q, uv_runs)]);
        lemma_looked_at_one(caches::place_lead(q, uv_runs), p, risk, purpose);
    }
}

/// The places of which a list is made, one after the other.
proof fn lemma_places_in_parts(
    notes: Seq<LeadView>,
    usual: Seq<caches::Place>,
    n1: caches::Place,
    n2: caches::Place,
    a: Option<caches::Place>,
    b: Option<caches::Place>,
    c: Option<caches::Place>,
    uv_runs: bool,
    p: Seq<char>,
    risk: Risk,
    purpose: PurposeView,
)
    requires
        only_notes(notes),
        n1.name.len() > 2,
        n2.name.len() > 2,
        a matches Some(q) ==> q.name.len() > 2,
        b matches Some(q) ==> q.name.len() > 2,
        c matches Some(q) ==> q.name.len() > 2,
    ensures
        ({
            let lead = |q: caches::Place| caches::place_lead(q, uv_runs);
            looked_at(
                notes + (usual + seq![n1, n2] + caches::at_most(a) + caches::at_most(b)
                    + caches::at_most(c)).map_values(lead),
                p,
                risk,
                purpose,
            ) <==> looked_at(usual.map_values(lead), p, risk, purpose) || (risk == Risk::Rebuild
                && purpose == PurposeView::Delete && (n1.path == p || n2.path == p || (
            a matches Some(q) && q.path == p) || (b matches Some(q) && q.path == p) || (
            c matches Some(q) && q.path == p)))
        }),
{
    let lead = |q: caches::Place| caches::place_lead(q, uv_runs);
    let u = usual.map_values(lead);
    let np = Seq::<LeadView>::empty().push(lead(n1)).push(lead(n2));
    let la = caches::at_most(a).map_values(lead);
    let lb = caches::at_most(b).map_values(lead);
    let lc = caches::at_most(c).map_values(lead);
    let all = notes + (usual + seq![n1, n2] + caches::at_most(a) + caches::at_most(b)
        + caches::at_most(c)).map_values(lead);
    assert(all =~= notes + u + np + la + lb + lc);
    lemma_notes_look_at_nothing(notes, p, risk, purpose);
    lemma_place_lead(n1, uv_runs, p, risk, purpose);
    lemma_place_lead(n2, uv_runs, p, risk, purpose);
    lemma_at_most(a, uv_runs, p, risk, purpose);
    lemma_at_most(b, uv_runs, p, risk, purpose);
    lemma_at_most(c, uv_runs, p, risk, purpose);
    lemma_looked_at_push(Seq::empty(), lead(n1), p, risk, purpose);
    lemma_looked_at_push(Seq::<LeadView>::empty().push(lead(n1)), lead(n2), p, risk, purpose);
    assert(!looked_at(Seq::<LeadView>::empty(), p, risk, purpose));
    lemma_looked_at_add(notes, u, p, risk, purpose);
    lemma_looked_at_add(notes + u, np, p, risk, purpose);
    lemma_looked_at_add(notes + u + np, la, p, risk, purpose);
    lemma_looked_at_add(notes + u + np + la, lb, p, risk, purpose);
    lemma_looked_at_add(notes + u + np + la + lb, lc, p, risk, purpose);
}

proof fn lemma_managers(
    on: Platform,
    home: Seq<char>,
    vars: Seq<Var>,
    t: &Tools,
    p: Seq<char>,
    risk: Risk,
    purpose: PurposeView,
)
    ensures
        looked_at(caches::manager_leads(on, home, vars, t), p, risk, purpose) <==> looked_at(
            caches::usual_places(on, home, vars).map_values(
                |q: caches::Place| caches::place_lead(q, t.uv_runs),
            ),
            p,
            risk,
            purpose,
        ) || (risk == Risk::Rebuild && purpose == PurposeView::Delete && told_by_manager(
            on,
            home,
            vars,
            t,
            p,
        )),
{
    let npm = caches::npm_place(home, t);
    let n1 = caches::place("npm"@, path::joined(npm, "_cacache"@));
    let n2 = caches::place("npx"@, path::joined(npm, "_npx"@));
    reveal_strlit("npm");
    reveal_strlit("npx");
    reveal_strlit("pnpm store");
    reveal_strlit("Go build cache");
    lemma_places_in_parts(
        caches::tool_notes(t),
        caches::usual_places(on, home, vars),
        n1,
        n2,
        caches::pnpm_place(on, t),
        caches::go_place(on, home, vars, t),
        caches::late_pnpm_place(on, home, vars, t),
        t.uv_runs,
        p,
        risk,
        purpose,
    );
}

/// The caches of package managers are looked for where they are by default or where the managers say,
/// and nowhere else; a manager that is installed and does not say is passed over.
pub proof fn law_caches_of_package_managers_are_looked_for(
    on: Platform,
    home: Seq<char>,
    vars: Seq<Var>,
    t: &Tools,
    p: Seq<char>,
    risk: Risk,
    purpose: PurposeView,
)
    ensures
        looked_at(caches::manager_leads(on, home, vars, t), p, risk, purpose) <==> risk
            == Risk::Rebuild && purpose == PurposeView::Delete && ((on == Platform::Linux
            && usual_linux_place(home, vars, t, p)) || (on == Platform::MacOs && usual_macos_place(
            home,
            vars,
            t,
            p,
        )) || told_by_manager(on, home, vars, t, p)),
{
    lemma_managers(on, home, vars, t, p, risk, purpose);
    match on {
        Platform::Linux => lemma_usual_linux(home, vars, t, p, risk, purpose),
        Platform::MacOs => lemma_usual_macos(home, vars, t, p, risk, purpose),
    }
}

/// Go keeps modules where it says, if that is an absolute path, or else where its variable says or in
/// the home directory.
pub proof fn law_go_modules_are_looked_for(
    home: Seq<char>,
    vars: Seq<Var>,
    answer: Option<Seq<char>>,
    p: Seq<char>,
    risk: Risk,
    purpose: PurposeView,
)
    ensures
        looks_at(extra::go_lead(home, vars, answer), p, risk, purpose) <==> risk == Risk::Review
            && purpose == PurposeView::Delete && p == (if answer matches Some(a) && path::absolute(
            a,
        ) {
            answer->0
        } else {
            path::joined(said_or(vars, home, "GOPATH"@, "go"@), "pkg/mod"@)
        }),
{
    lemma_in_one(extra::go_modules(home, vars, answer), p);
}

/// The value of a variable is that of the first entry with its name; where there is none, it is not set.
pub proof fn law_variables_are_looked_up(vars: Seq<Var>, name: Seq<char>)
    ensures
        platform::value(vars, name) is None <==> forall|i: int|
            0 <= i < vars.len() ==> (#[trigger] vars[i]).name@ != name,
        forall|i: int|
            0 <= i < vars.len() && (#[trigger] vars[i]).name@ == name && (forall|k: int|
                0 <= k < i ==> (#[trigger] vars[k]).name@ != name) ==> platform::value(vars, name)
                == Some(vars[i].value@),
    decreases vars.len(),
{
    if vars.len() > 0 {
        let rest = vars.drop_first();
        law_variables_are_looked_up(rest, name);
        if vars[0].name@ != name {
            assert forall|i: int|
                0 <= i < vars.len() && (#[trigger] vars[i]).name@ == name && (forall|k: int|
                    0 <= k < i ==> (#[trigger] vars[k]).name@ != name) implies platform::value(
                vars,
                name,
            ) == Some(vars[i].value@) by {
                assert(rest[i - 1] == vars[i]);
                assert forall|k: int| 0 <= k < i - 1 implies (#[trigger] rest[k]).name@ != name by {
                    assert(vars[k + 1] == rest[k]);
                }
            }
            if platform::value(vars, name) is None {
                assert forall|i: int| 0 <= i < vars.len() implies (#[trigger] vars[i]).name@
                    != name by {
                    if i > 0 {
                        assert(rest[i - 1] == vars[i]);
                    }
                }
            }
            if forall|i: int| 0 <= i < vars.len() ==> (#[trigger] vars[i]).name@ != name {
                assert forall|i: int| 0 <= i < rest.len() implies (#[trigger] rest[i]).name@
                    != name by {
                    assert(vars[i + 1] == rest[i]);
                }
            }
        }
    }
}

/// Whether a tool was asked and gave no absolute path.
pub open spec fn is_silent(a: caches::Answer) -> bool {
    match a {
        None => false,
        Some(None) => true,
        Some(Some(p)) => !path::absolute(p@),
    }
}

/// A tool that was asked where its cache is and does not say so is told of; no other is.
pub proof fn law_silent_tools_are_told(t: &Tools)
    ensures
        caches::tool_notes(t).contains(
            LeadView::Note("npm cache location unavailable; using documented default ~/.npm"@),
        ) <==> is_silent(t.npm),
        caches::tool_notes(t).contains(
            LeadView::Note("pnpm did not report its store; skipped"@),
        ) <==> is_silent(t.pnpm),
        caches::tool_notes(t).contains(LeadView::Note("Go cache location unavailable"@))
            <==> is_silent(t.go),
        caches::tool_notes(t).len() <= 3,
{
    let n = caches::tool_notes(t);
    let a = "npm cache location unavailable; using documented default ~/.npm"@;
    let b = "pnpm did not report its store; skipped"@;
    let c = "Go cache location unavailable"@;
    reveal_strlit("npm cache location unavailable; using documented default ~/.npm");
    reveal_strlit("pnpm did not report its store; skipped");
    reveal_strlit("Go cache location unavailable");
    assert(a[0] == 'n' && b[0] == 'p' && c[0] == 'G');
    let x: int = if is_silent(t.npm) {
        1
    } else {
        0
    };
    let y: int = if is_silent(t.pnpm) {
        1
    } else {
        0
    };
    if is_silent(t.npm) {
        assert(n[0] == LeadView::Note(a));
    }
    if is_silent(t.pnpm) {
        assert(n[x] == LeadView::Note(b));
    }
    if is_silent(t.go) {
        assert(n[x + y] == LeadView::Note(c));
    }
}

} // verus!
