//! What Docker is asked, and when.
use crate::docker;
use crate::docker::{bad_name, valid_volume_name, Discovery, Document};
use crate::json::Json;
use crate::managed;
use crate::managed::local_endpoint;
use crate::model;
use crate::stores;
use crate::text;
use crate::text::{is_among, lines_of};
use vstd::prelude::*;
use vstd::string::*;

verus! {

broadcast use {text::lemma_views_push, text::lemma_views_add};

/// The arguments that list the contexts.
pub open spec fn listing_words() -> Seq<Seq<char>> {
    seq!["context"@, "ls"@, "--format"@, "{{json .}}"@]
}

/// The arguments that describe a context.
pub open spec fn context_words(context: Seq<char>) -> Seq<Seq<char>> {
    seq!["context"@, "inspect"@, context]
}

/// The arguments that identify the daemon of a context.
pub open spec fn daemon_words(context: Seq<char>) -> Seq<Seq<char>> {
    seq!["--context"@, context, "info"@, "--format"@, "{{.ID}}"@]
}

/// The arguments that tell what a context can give back.
pub open spec fn usage_words(context: Seq<char>) -> Seq<Seq<char>> {
    seq!["--context"@, context, "system"@, "df"@, "--format"@, "{{json .}}"@]
}

/// The arguments that list the volumes of a context that nothing uses.
pub open spec fn unused_words(context: Seq<char>) -> Seq<Seq<char>> {
    seq![
        "--context"@,
        context,
        "volume"@,
        "ls"@,
        "--filter"@,
        "dangling=true"@,
        "--format"@,
        "{{.Name}}"@,
    ]
}

/// The arguments that describe a volume of a context.
pub open spec fn volume_words(context: Seq<char>, name: Seq<char>) -> Seq<Seq<char>> {
    seq!["--context"@, context, "volume"@, "inspect"@, name]
}

/// The arguments that tell what a builder of a context keeps that is older than three days.
pub open spec fn builder_words(context: Seq<char>, builder: Seq<char>) -> Seq<Seq<char>> {
    seq![
        "--context"@,
        context,
        "buildx"@,
        "--builder"@,
        builder,
        "du"@,
        "--filter"@,
        "until=72h"@,
        "--format=json"@,
    ]
}

fn ask_context(context: &str) -> (r: Vec<String>)
    ensures
        text::views(r@) == context_words(context@),
{
    let out = vec!["context".to_owned(), "inspect".to_owned(), context.to_owned()];
    assert(text::views(out@) =~= context_words(context@));
    out
}

fn ask_daemon(context: &str) -> (r: Vec<String>)
    ensures
        text::views(r@) == daemon_words(context@),
{
    let out = vec![
        "--context".to_owned(),
        context.to_owned(),
        "info".to_owned(),
        "--format".to_owned(),
        "{{.ID}}".to_owned(),
    ];
    assert(text::views(out@) =~= daemon_words(context@));
    out
}

fn ask_usage(context: &str) -> (r: Vec<String>)
    ensures
        text::views(r@) == usage_words(context@),
{
    let out = vec![
        "--context".to_owned(),
        context.to_owned(),
        "system".to_owned(),
        "df".to_owned(),
        "--format".to_owned(),
        "{{json .}}".to_owned(),
    ];
    assert(text::views(out@) =~= usage_words(context@));
    out
}

/// What lists the volumes of a context that nothing uses.
pub fn ask_unused(context: &str) -> (r: Vec<String>)
    ensures
        text::views(r@) == unused_words(context@),
{
    let out = vec![
        "--context".to_owned(),
        context.to_owned(),
        "volume".to_owned(),
        "ls".to_owned(),
        "--filter".to_owned(),
        "dangling=true".to_owned(),
        "--format".to_owned(),
        "{{.Name}}".to_owned(),
    ];
    assert(text::views(out@) =~= unused_words(context@));
    out
}

fn ask_volume(context: &str, name: &str) -> (r: Vec<String>)
    ensures
        text::views(r@) == volume_words(context@, name@),
{
    let out = vec![
        "--context".to_owned(),
        context.to_owned(),
        "volume".to_owned(),
        "inspect".to_owned(),
        name.to_owned(),
    ];
    assert(text::views(out@) =~= volume_words(context@, name@));
    out
}

/// What tells what a builder of a context keeps that is older than three days.
pub fn ask_builder(context: &str, builder: &str) -> (r: Vec<String>)
    ensures
        text::views(r@) == builder_words(context@, builder@),
{
    let out = vec![
        "--context".to_owned(),
        context.to_owned(),
        "buildx".to_owned(),
        "--builder".to_owned(),
        builder.to_owned(),
        "du".to_owned(),
        "--filter".to_owned(),
        "until=72h".to_owned(),
        "--format=json".to_owned(),
    ];
    assert(text::views(out@) =~= builder_words(context@, builder@));
    out
}

/// What finds the contexts: the description of the one that is wanted, unless its name is bad, or
/// the list of all.
pub open spec fn contexts_question(wanted: Option<Seq<char>>) -> Option<Seq<Seq<char>>> {
    match wanted {
        Some(context) => if docker::is_bad_name(context) {
            None
        } else {
            Some(context_words(context))
        },
        None => Some(listing_words()),
    }
}

/// What finds the contexts, if anything is asked.
pub fn ask_contexts(wanted: &Option<String>) -> (r: Option<Vec<String>>)
    ensures
        stores::optional_texts(r) == contexts_question(model::optional_text(*wanted)),
{
    match wanted {
        Some(context) => {
            if bad_name(context.as_str()) {
                return None;
            }
            Some(ask_context(context.as_str()))
        },
        None => {
            let out = vec![
                "context".to_owned(),
                "ls".to_owned(),
                "--format".to_owned(),
                "{{json .}}".to_owned(),
            ];
            assert(text::views(out@) =~= listing_words());
            Some(out)
        },
    }
}

/// What is next in learning of a context.
#[derive(Debug)]
pub enum ContextStep {
    /// Ask for its description.
    Describe(Vec<String>),
    /// Ask for the identity of its daemon.
    Identify(Vec<String>),
    /// Ask for what it can give back.
    Measure(Vec<String>),
    /// Nothing more needs to be known.
    Enough,
}

pub enum ContextStepView {
    Describe(Seq<Seq<char>>),
    Identify(Seq<Seq<char>>),
    Measure(Seq<Seq<char>>),
    Enough,
}

impl View for ContextStep {
    type V = ContextStepView;

    open spec fn view(&self) -> ContextStepView {
        match self {
            ContextStep::Describe(w) => ContextStepView::Describe(text::views(w@)),
            ContextStep::Identify(w) => ContextStepView::Identify(text::views(w@)),
            ContextStep::Measure(w) => ContextStepView::Measure(text::views(w@)),
            ContextStep::Enough => ContextStepView::Enough,
        }
    }
}

/// What is next in learning of a context, from what was heard so far. The daemon is asked only where
/// the context is of this machine, and for its usage only where it was not met before.
pub open spec fn context_question(
    d: docker::DiscoveryView,
    context: Seq<char>,
    described: Option<Result<Json, Seq<char>>>,
    daemon: Option<Result<Seq<char>, Seq<char>>>,
    measured: bool,
) -> ContextStepView {
    match described {
        None => ContextStepView::Describe(context_words(context)),
        Some(Err(_)) => ContextStepView::Enough,
        Some(Ok(j)) => if managed::named_endpoint(j) is Err {
            ContextStepView::Enough
        } else {
            match daemon {
                None => ContextStepView::Identify(daemon_words(context)),
                Some(Err(_)) => ContextStepView::Enough,
                Some(Ok(id)) => if id.len() == 0 || d.daemons.contains(id) || measured {
                    ContextStepView::Enough
                } else {
                    ContextStepView::Measure(usage_words(context))
                },
            }
        },
    }
}

/// What is next in learning of a context.
pub fn context_step(
    d: &Discovery,
    context: &str,
    described: &Option<Document>,
    daemon: &Option<Result<String, String>>,
    measured: bool,
) -> (r: ContextStep)
    ensures
        r@ == context_question(
            d@,
            context@,
            stores::asked_json(*described),
            stores::asked_text(*daemon),
            measured,
        ),
{
    let j = match described {
        None => return ContextStep::Describe(ask_context(context)),
        Some(Err(_)) => return ContextStep::Enough,
        Some(Ok(j)) => j,
    };
    if local_endpoint(j).is_err() {
        return ContextStep::Enough;
    }
    match daemon {
        None => ContextStep::Identify(ask_daemon(context)),
        Some(Err(_)) => ContextStep::Enough,
        Some(Ok(id)) => if id.as_str().is_empty() || d.knows(id.as_str()) || measured {
            ContextStep::Enough
        } else {
            ContextStep::Measure(ask_usage(context))
        },
    }
}

/// What is next in learning whether a volume is old and unused.
#[derive(Debug)]
pub enum VolumeStep {
    /// Ask for the volumes that nothing uses.
    List(Vec<String>),
    /// Ask for the description of the volume.
    Inspect(Vec<String>),
    /// It cannot be told.
    Refused(String),
    /// It is in use.
    Kept,
}

pub enum VolumeStepView {
    List(Seq<Seq<char>>),
    Inspect(Seq<Seq<char>>),
    Refused(Seq<char>),
    Kept,
}

impl View for VolumeStep {
    type V = VolumeStepView;

    open spec fn view(&self) -> VolumeStepView {
        match self {
            VolumeStep::List(w) => VolumeStepView::List(text::views(w@)),
            VolumeStep::Inspect(w) => VolumeStepView::Inspect(text::views(w@)),
            VolumeStep::Refused(e) => VolumeStepView::Refused(e@),
            VolumeStep::Kept => VolumeStepView::Kept,
        }
    }
}

/// What is next in learning whether a volume is old and unused; `listing` names the volumes that
/// nothing uses, once that was asked.
pub open spec fn volume_question(
    context: Seq<char>,
    name: Seq<char>,
    listing: Option<Result<Seq<char>, Seq<char>>>,
) -> VolumeStepView {
    if !docker::is_volume_name(name) {
        VolumeStepView::Refused("Invalid volume name"@)
    } else {
        match listing {
            None => VolumeStepView::List(unused_words(context)),
            Some(Err(e)) => VolumeStepView::Refused(e),
            Some(Ok(l)) => if text::lines(l).contains(name) {
                VolumeStepView::Inspect(volume_words(context, name))
            } else {
                VolumeStepView::Kept
            },
        }
    }
}

/// What is next in learning whether a volume is old and unused.
pub fn volume_step(context: &str, name: &str, listing: &Option<Result<String, String>>) -> (r:
    VolumeStep)
    ensures
        r@ == volume_question(context@, name@, stores::asked_text(*listing)),
{
    if !valid_volume_name(name) {
        return VolumeStep::Refused("Invalid volume name".to_owned());
    }
    match listing {
        None => VolumeStep::List(ask_unused(context)),
        Some(Err(e)) => VolumeStep::Refused(e.clone()),
        Some(Ok(l)) => if is_among(name, &lines_of(l.as_str())) {
            VolumeStep::Inspect(ask_volume(context, name))
        } else {
            VolumeStep::Kept
        },
    }
}

/// Nothing is asked of a volume with a bad name.
pub proof fn law_bad_volume_names_are_not_asked_for(
    context: Seq<char>,
    name: Seq<char>,
    listing: Option<Result<Seq<char>, Seq<char>>>,
)
    requires
        !docker::is_volume_name(name),
    ensures
        volume_question(context, name, listing) == VolumeStepView::Refused(
            "Invalid volume name"@,
        ),
{
}

/// A volume is described only after it was listed among those that nothing uses.
pub proof fn law_only_unused_volumes_are_inspected(
    context: Seq<char>,
    name: Seq<char>,
    listing: Option<Result<Seq<char>, Seq<char>>>,
)
    requires
        volume_question(context, name, listing) is Inspect,
    ensures
        docker::is_volume_name(name),
        listing matches Some(Ok(l)) && text::lines(l).contains(name),
{
}

/// Where no description of a volume is asked for, the verdict on it does not depend on one.
pub proof fn law_unasked_descriptions_do_not_matter(
    context: Seq<char>,
    name: Seq<char>,
    listing: Result<Seq<char>, Seq<char>>,
    description: Result<Json, Seq<char>>,
    now: i64,
)
    ensures
        match volume_question(context, name, Some(listing)) {
            VolumeStepView::Refused(e) => docker::volume_verdict(name, listing, description, now)
                == Err::<bool, Seq<char>>(e),
            VolumeStepView::Kept => docker::volume_verdict(name, listing, description, now) == Ok::<
                bool,
                Seq<char>,
            >(false),
            VolumeStepView::Inspect(w) => w == volume_words(context, name),
            VolumeStepView::List(_) => false,
        },
{
}

/// Where nothing more is asked of a context, what comes of it does not depend on the answers that
/// were not heard.
pub proof fn law_unasked_answers_do_not_matter(
    d: docker::DiscoveryView,
    context: Seq<char>,
    described: Result<Json, Seq<char>>,
    daemon: Option<Result<Seq<char>, Seq<char>>>,
    one: Result<Seq<char>, Seq<char>>,
    other: Result<Seq<char>, Seq<char>>,
    usage: Result<Seq<Result<Json, Seq<char>>>, Seq<char>>,
    other_usage: Result<Seq<Result<Json, Seq<char>>>, Seq<char>>,
)
    requires
        context_question(d, context, Some(described), daemon, false) is Enough,
        daemon matches Some(heard) ==> one == heard && other == heard,
    ensures
        d.with_scan(context, described, one, usage) == d.with_scan(
            context,
            described,
            other,
            other_usage,
        ),
{
}

} // verus!
