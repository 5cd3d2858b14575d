//! The command line, and the inventory that it can ask for.
use crate::binary64;
use crate::binary64::round_seconds;
use crate::model;
use crate::model::{safe_text, size, Item, Report};
use crate::text;
use crate::text::{chars_of, concat2, concat3, decimal_of, pad, same, spaces_of};
use vstd::prelude::*;
use vstd::string::*;

verus! {

broadcast use {text::lemma_views_push, text::lemma_views_add};

/// How a scan or a cleanup is run.
#[derive(Debug)]
pub struct Options {
    /// Where projects are looked for, in place of what the settings say.
    pub roots: Vec<String>,
    /// Whether what is found is only listed.
    pub scan_only: bool,
    /// Whether the list is JSON.
    pub json: bool,
    /// Whether nothing is to be removed.
    pub dry: bool,
}

#[verifier::ext_equal]
pub struct OptionsView {
    pub roots: Seq<Seq<char>>,
    pub scan_only: bool,
    pub json: bool,
    pub dry: bool,
}

impl View for Options {
    type V = OptionsView;

    open spec fn view(&self) -> OptionsView {
        OptionsView {
            roots: text::views(self.roots@),
            scan_only: self.scan_only,
            json: self.json,
            dry: self.dry,
        }
    }
}

/// What the command line asks for.
#[derive(Debug)]
pub enum Command {
    /// Remove a target as administrator, by this request.
    Delete(String),
    Version,
    Help,
    Run(Options),
}

pub enum CommandView {
    Delete(Seq<char>),
    Version,
    Help,
    Run(OptionsView),
}

impl View for Command {
    type V = CommandView;

    open spec fn view(&self) -> CommandView {
        match self {
            Command::Delete(request) => CommandView::Delete(request@),
            Command::Version => CommandView::Version,
            Command::Help => CommandView::Help,
            Command::Run(o) => CommandView::Run(o@),
        }
    }
}

/// No option given.
pub open spec fn no_options() -> OptionsView {
    OptionsView { roots: Seq::empty(), scan_only: false, json: false, dry: false }
}

/// What arguments ask for, after some options, or what is wrong with them.
pub open spec fn parsed(args: Seq<Seq<char>>, o: OptionsView) -> Result<CommandView, Seq<char>>
    decreases args.len(),
{
    if args.len() == 0 {
        Ok(CommandView::Run(o))
    } else {
        let rest = args.skip(1);
        if args[0] == "--internal-delete"@ {
            if rest.len() == 0 {
                Err("Missing internal request"@)
            } else {
                Ok(CommandView::Delete(rest[0]))
            }
        } else if args[0] == "--root"@ {
            if rest.len() == 0 {
                Err("--root needs a path"@)
            } else {
                parsed(args.skip(2), OptionsView { roots: o.roots.push(rest[0]), ..o })
            }
        } else if args[0] == "--scan"@ {
            parsed(rest, OptionsView { scan_only: true, ..o })
        } else if args[0] == "--json"@ {
            parsed(rest, OptionsView { json: true, scan_only: true, ..o })
        } else if args[0] == "--dry"@ {
            parsed(rest, OptionsView { dry: true, ..o })
        } else if args[0] == "--version"@ {
            Ok(CommandView::Version)
        } else if args[0] == "--help"@ || args[0] == "-h"@ {
            Ok(CommandView::Help)
        } else {
            Err("Unknown option "@ + args[0] + "; use --help"@)
        }
    }
}

/// What arguments ask for: they are read one after the other, and the first that asks for something
/// else than a run, or is wrong, decides.
pub fn parse(args: &Vec<String>) -> (r: Result<Command, String>)
    ensures
        match r {
            Ok(c) => parsed(text::views(args@), no_options()) == Ok::<CommandView, Seq<char>>(c@),
            Err(e) => parsed(text::views(args@), no_options()) == Err::<CommandView, Seq<char>>(
                e@,
            ),
        },
{
    let ghost all = text::views(args@);
    let mut o = Options { roots: Vec::new(), scan_only: false, json: false, dry: false };
    assert(o@ =~= no_options());
    let mut i: usize = 0;
    assert(all.skip(0) =~= all);
    while i < args.len()
        invariant
            i <= args@.len(),
            all == text::views(args@),
            parsed(all, no_options()) == parsed(all.skip(i as int), o@),
        decreases args@.len() - i,
    {
        let arg = args[i].as_str();
        assert(all.skip(i as int)[0] == arg@);
        assert(all.skip(i as int).skip(1) =~= all.skip(i + 1));
        if same(arg, "--internal-delete") {
            if i + 1 < args.len() {
                assert(all.skip(i + 1)[0] == args@[i + 1]@);
                return Ok(Command::Delete(args[i + 1].clone()));
            }
            return Err("Missing internal request".to_owned());
        } else if same(arg, "--root") {
            if i + 1 >= args.len() {
                return Err("--root needs a path".to_owned());
            }
            assert(all.skip(i + 1)[0] == args@[i + 1]@);
            assert(all.skip(i as int).skip(2) =~= all.skip(i + 2));
            o.roots.push(args[i + 1].clone());
            i += 1;
        } else if same(arg, "--scan") {
            o.scan_only = true;
        } else if same(arg, "--json") {
            o.json = true;
            o.scan_only = true;
        } else if same(arg, "--dry") {
            o.dry = true;
        } else if same(arg, "--version") {
            return Ok(Command::Version);
        } else if same(arg, "--help") || same(arg, "-h") {
            return Ok(Command::Help);
        } else {
            return Err(concat3("Unknown option ", arg, "; use --help"));
        }
        i += 1;
    }
    assert(all.skip(i as int).len() == 0);
    Ok(Command::Run(o))
}

/// What the help says.
pub fn help() -> (r: String)
    ensures
        r@
            == "cleanix [--dry] [--root PATH ...] [--scan | --json]\n\nInteractive cleanup permanently deletes selected data after confirmation.\n--dry validates only: no deletion, reset, prune or administrator prompt.\n--scan and --json are always read-only inventories.\n--root PATH overrides the project discovery root; repeat for multiple roots.\n--version shows the version; --help / -h shows this help.\nConfig: $XDG_CONFIG_HOME/cleanix/config.toml or ~/.config/cleanix/config.toml\nDefault discovery root: home. Global tool caches remain in scope.\nKeys: space select, enter expand, / search, d delete, i details, ? help."@,
{
    "cleanix [--dry] [--root PATH ...] [--scan | --json]\n\nInteractive cleanup permanently deletes selected data after confirmation.\n--dry validates only: no deletion, reset, prune or administrator prompt.\n--scan and --json are always read-only inventories.\n--root PATH overrides the project discovery root; repeat for multiple roots.\n--version shows the version; --help / -h shows this help.\nConfig: $XDG_CONFIG_HOME/cleanix/config.toml or ~/.config/cleanix/config.toml\nDefault discovery root: home. Global tool caches remain in scope.\nKeys: space select, enter expand, / search, d delete, i details, ? help.".to_owned()
}

/// A text filled up with spaces at its beginning.
pub open spec fn shifted(s: Seq<char>, width: nat) -> Seq<char> {
    if s.len() < width {
        text::spaces((width - s.len()) as nat) + s
    } else {
        s
    }
}

fn shift(s: &str, width: usize) -> (r: String)
    ensures
        r@ == shifted(s@, width as nat),
{
    let n = chars_of(s).len();
    if n < width {
        concat2(spaces_of(width - n).as_str(), s)
    } else {
        s.to_owned()
    }
}

/// The line that lists an item.
pub open spec fn item_line(i: model::ItemView) -> Seq<char> {
    shifted(
        match i.bytes {
            Some(b) => model::size_text(b as nat),
            None => "unknown"@,
        },
        12,
    ) + "  "@ + text::padded(i.category, 20) + "  "@ + model::shown(i.name)
}

fn line_of(i: &Item) -> (r: String)
    ensures
        r@ == item_line(i@),
{
    let amount = match i.bytes {
        Some(b) => size(b),
        None => "unknown".to_owned(),
    };
    let mut out = concat3(
        shift(amount.as_str(), 12).as_str(),
        "  ",
        pad(i.category.as_str(), 20).as_str(),
    );
    out.append("  ");
    out.append(safe_text(i.name.as_str()).as_str());
    out
}

/// Seconds with two decimals.
pub open spec fn exact_seconds(nanos: nat) -> Seq<char> {
    let h = binary64::fractions(nanos, 100);
    text::decimal(h / 100) + "."@ + text::decimal((h / 10) % 10) + text::decimal(h % 10)
}

/// The line that sums an inventory up.
pub open spec fn summary_line(r: model::ReportView) -> Seq<char> {
    text::decimal(r.items.len()) + " actions in "@ + exact_seconds(r.elapsed_nanos as nat)
        + "s. Read-only. "@ + text::decimal(r.notes.len()) + " scan notes."@
}

fn summarize(r: &Report) -> (l: String)
    ensures
        l@ == summary_line(r@),
{
    let h = round_seconds(r.elapsed_nanos, 100);
    let mut out = concat2(decimal_of(r.items.len() as u64).as_str(), " actions in ");
    out.append(decimal_of(h / 100).as_str());
    out.append(".");
    out.append(decimal_of((h / 10) % 10).as_str());
    out.append(decimal_of(h % 10).as_str());
    out.append("s. Read-only. ");
    out.append(decimal_of(r.notes.len() as u64).as_str());
    out.append(" scan notes.");
    assert(r@.items.len() == r.items@.len());
    assert(r@.notes.len() == r.notes@.len());
    assert(out@ =~= summary_line(r@));
    out
}

/// The lines of an inventory: the items, a line that sums up after an empty one, and the notes.
pub open spec fn inventory_lines(r: model::ReportView) -> Seq<Seq<char>> {
    r.items.map_values(|i: model::ItemView| item_line(i)) + seq![
        Seq::<char>::empty(),
        summary_line(r),
    ] + r.notes.map_values(|n: Seq<char>| "  "@ + model::shown(n))
}

/// The lines of an inventory.
pub fn inventory(r: &Report) -> (lines: Vec<String>)
    ensures
        text::views(lines@) == inventory_lines(r@),
{
    let ghost items = r@.items.map_values(|i: model::ItemView| item_line(i));
    let ghost notes = r@.notes.map_values(|n: Seq<char>| "  "@ + model::shown(n));
    let mut out: Vec<String> = Vec::new();
    let mut i: usize = 0;
    assert(text::views(out@) =~= items.take(0));
    while i < r.items.len()
        invariant
            i <= r.items@.len(),
            items == r@.items.map_values(|i: model::ItemView| item_line(i)),
            text::views(out@) == items.take(i as int),
        decreases r.items@.len() - i,
    {
        let l = line_of(&r.items[i]);
        assert(l@ == items[i as int]);
        out.push(l);
        i += 1;
        assert(text::views(out@) =~= items.take(i as int));
    }
    assert(items.take(i as int) =~= items);
    let empty = String::new();
    assert(empty@ =~= Seq::<char>::empty());
    out.push(empty);
    out.push(summarize(r));
    let ghost front = text::views(out@);
    assert(front =~= items + seq![Seq::<char>::empty(), summary_line(r@)]);
    let mut k: usize = 0;
    assert(front + notes.take(0) =~= front);
    while k < r.notes.len()
        invariant
            k <= r.notes@.len(),
            notes == r@.notes.map_values(|n: Seq<char>| "  "@ + model::shown(n)),
            text::views(out@) == front + notes.take(k as int),
        decreases r.notes@.len() - k,
    {
        let l = concat2("  ", safe_text(r.notes[k].as_str()).as_str());
        assert(l@ == notes[k as int]);
        out.push(l);
        k += 1;
        assert(text::views(out@) =~= front + notes.take(k as int));
    }
    assert(notes.take(k as int) =~= notes);
    out
}

/// An inventory as JSON is one that only lists.
pub proof fn law_json_only_lists(args: Seq<Seq<char>>, o: OptionsView)
    requires
        o.json ==> o.scan_only,
    ensures
        parsed(args, o) matches Ok(CommandView::Run(p)) ==> (p.json ==> p.scan_only),
    decreases args.len(),
{
    if args.len() > 0 {
        let rest = args.skip(1);
        if args[0] == "--root"@ && rest.len() > 0 {
            law_json_only_lists(
                args.skip(2),
                OptionsView { roots: o.roots.push(rest[0]), ..o },
            );
        }
        law_json_only_lists(rest, OptionsView { scan_only: true, ..o });
        law_json_only_lists(rest, OptionsView { json: true, scan_only: true, ..o });
        law_json_only_lists(rest, OptionsView { dry: true, ..o });
    }
}

} // verus!
