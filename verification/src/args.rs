//! The command line.

use vstd::prelude::*;

use crate::text::same_text;

verus! {

/// Leading `--badge-*` options split from the rest of the arguments
#[derive(Debug)]
pub struct ParsedArgs {
    pub badge_color: Option<String>,
    pub badge_text: Option<String>,
    /// Everything after the leading options (e.g. `attach <cmd...>`),
    /// excluding the program name
    pub rest: Vec<String>,
}

/// The texts of some arguments.
pub open spec fn args_view(args: Seq<String>) -> Seq<Seq<char>> {
    Seq::new(args.len(), |i: int| args[i]@)
}

/// Mathematical value of `ParsedArgs`.
#[verifier::ext_equal]
pub struct ParsedView {
    pub badge_color: Option<Seq<char>>,
    pub badge_text: Option<Seq<char>>,
    pub rest: Seq<Seq<char>>,
}

/// The text of an optional string.
pub open spec fn text_view(text: Option<String>) -> Option<Seq<char>> {
    match text {
        Some(text) => Some(text@),
        None => None,
    }
}

impl View for ParsedArgs {
    type V = ParsedView;

    open spec fn view(&self) -> ParsedView {
        ParsedView {
            badge_color: text_view(self.badge_color),
            badge_text: text_view(self.badge_text),
            rest: args_view(self.rest@),
        }
    }
}

/// The options at the start of `args`, added to those in `found`; a later
/// option of the same name counts, and one without a value is no option.
pub open spec fn options_read(args: Seq<Seq<char>>, found: ParsedView) -> ParsedView
    decreases args.len(),
{
    if args.len() >= 2 && args[0] == "--badge-color"@ {
        options_read(args.skip(2), ParsedView { badge_color: Some(args[1]), ..found })
    } else if args.len() >= 2 && args[0] == "--badge-text"@ {
        options_read(args.skip(2), ParsedView { badge_text: Some(args[1]), ..found })
    } else {
        ParsedView { rest: args, ..found }
    }
}

/// What the arguments behind the program name ask for.
pub open spec fn parsed(args: Seq<Seq<char>>) -> ParsedView {
    options_read(
        args,
        ParsedView { badge_color: None, badge_text: None, rest: Seq::empty() },
    )
}

/// Splits the leading `--badge-color`/`--badge-text` options (which must
/// precede any `attach` subcommand) from the rest. `args` holds the
/// program name at index 0.
pub fn parse_args(args: &[String]) -> (r: ParsedArgs)
    requires
        args@.len() > 0,
    ensures
        r@ == parsed(args_view(args@).skip(1)),
{
    let ghost all = args_view(args@);
    let mut badge_color: Option<String> = None;
    let mut badge_text: Option<String> = None;
    let mut i: usize = 1;
    while i < args.len() && args.len() - i >= 2
        invariant
            all == args_view(args@),
            1 <= i <= args@.len(),
            parsed(all.skip(1)) == options_read(
                all.skip(i as int),
                ParsedView {
                    badge_color: text_view(badge_color),
                    badge_text: text_view(badge_text),
                    rest: Seq::empty(),
                },
            ),
        ensures
            parsed(all.skip(1)) == (ParsedView {
                badge_color: text_view(badge_color),
                badge_text: text_view(badge_text),
                rest: all.skip(i as int),
            }),
        decreases args@.len() - i,
    {
        let ghost here = all.skip(i as int);
        proof {
            assert(here[0] == args@[i as int]@);
            assert(here[1] == args@[i + 1]@);
            assert(here.skip(2) =~= all.skip(i + 2));
        }
        if same_text(args[i].as_str(), "--badge-color") {
            badge_color = Some(args[i + 1].clone());
        } else if same_text(args[i].as_str(), "--badge-text") {
            badge_text = Some(args[i + 1].clone());
        } else {
            break;
        }
        i += 2;
    }
    let mut rest: Vec<String> = Vec::new();
    let mut j: usize = i;
    while j < args.len()
        invariant
            i <= j <= args@.len(),
            rest@.len() == j - i,
            forall|k: int| 0 <= k < rest@.len() ==> (#[trigger] rest@[k])@ == args@[i + k]@,
        decreases args@.len() - j,
    {
        rest.push(args[j].clone());
        j += 1;
    }
    assert(args_view(rest@) =~= all.skip(i as int));
    ParsedArgs { badge_color, badge_text, rest }
}

/// Whether the help is asked for: only the first argument counts, as "-h" may
/// be part of the attach command.
pub fn wants_help(args: &[String]) -> (r: bool)
    ensures
        r == (args@.len() > 1 && (args@[1]@ == "--help"@ || args@[1]@ == "-h"@)),
{
    args.len() > 1 && (same_text(args[1].as_str(), "--help") || same_text(args[1].as_str(), "-h"))
}

/// What to open.
#[derive(Debug)]
pub enum Launch {
    /// A window with a normal terminal
    Normal,
    /// A window attached to the command
    Attach(Vec<String>),
    /// `attach` without a command
    MissingCommand,
    /// An argument that means nothing
    Unknown(String),
}

/// Mathematical value of a `Launch`.
pub enum LaunchView {
    Normal,
    Attach(Seq<Seq<char>>),
    MissingCommand,
    Unknown(Seq<char>),
}

impl View for Launch {
    type V = LaunchView;

    open spec fn view(&self) -> LaunchView {
        match *self {
            Launch::Normal => LaunchView::Normal,
            Launch::Attach(argv) => LaunchView::Attach(args_view(argv@)),
            Launch::MissingCommand => LaunchView::MissingCommand,
            Launch::Unknown(arg) => LaunchView::Unknown(arg@),
        }
    }
}

/// What the arguments behind the options ask to open.
pub open spec fn launched(rest: Seq<Seq<char>>) -> LaunchView {
    if rest.len() == 0 {
        LaunchView::Normal
    } else if rest[0] != "attach"@ {
        LaunchView::Unknown(rest[0])
    } else if rest.len() == 1 {
        LaunchView::MissingCommand
    } else {
        LaunchView::Attach(rest.skip(1))
    }
}

/// What the arguments behind the options ask to open. The attach command is
/// taken as it is, without any parsing.
pub fn launch(rest: &[String]) -> (r: Launch)
    ensures
        r@ == launched(args_view(rest@)),
{
    if rest.len() == 0 {
        return Launch::Normal;
    }
    if !same_text(rest[0].as_str(), "attach") {
        return Launch::Unknown(rest[0].clone());
    }
    if rest.len() == 1 {
        return Launch::MissingCommand;
    }
    let mut argv: Vec<String> = Vec::new();
    let mut i: usize = 1;
    while i < rest.len()
        invariant
            1 <= i <= rest@.len(),
            argv@.len() == i - 1,
            forall|k: int| 0 <= k < argv@.len() ==> (#[trigger] argv@[k])@ == rest@[k + 1]@,
        decreases rest@.len() - i,
    {
        argv.push(rest[i].clone());
        i += 1;
    }
    assert(args_view(argv@) =~= args_view(rest@).skip(1));
    Launch::Attach(argv)
}

// ---------------------------------------------------------------------------
// Laws
// ---------------------------------------------------------------------------

/// The attach command reaches the window word for word, options of its own
/// included, whatever badge the window gets.
pub proof fn law_attach_command_is_untouched(command: Seq<Seq<char>>, color: Seq<char>)
    requires
        command.len() > 0,
    ensures
        launched(parsed(seq!["attach"@] + command).rest) == LaunchView::Attach(command),
        launched(parsed(seq!["--badge-color"@, color, "attach"@] + command).rest)
            == LaunchView::Attach(command),
        parsed(seq!["--badge-color"@, color, "attach"@] + command).badge_color == Some(color),
{
    reveal_strlit("attach");
    reveal_strlit("--badge-color");
    reveal_strlit("--badge-text");
    let plain = seq!["attach"@] + command;
    let badged = seq!["--badge-color"@, color, "attach"@] + command;
    assert("attach"@.len() != "--badge-color"@.len());
    assert("attach"@.len() != "--badge-text"@.len());
    assert(plain.skip(1) =~= command);
    assert(badged.skip(2) =~= plain);
    reveal_with_fuel(options_read, 2);
}

/// Options are read in pairs of a name and a value, in any order, and a later
/// one of the same name counts: what an option brings is what the rest of the
/// arguments brings, unless the rest sets it again.
pub proof fn law_later_options_count(args: Seq<Seq<char>>, value: Seq<char>)
    ensures
        ({
            let rest = parsed(args);
            let colored = parsed(seq!["--badge-color"@, value] + args);
            let labelled = parsed(seq!["--badge-text"@, value] + args);
            &&& colored.rest == rest.rest
            &&& labelled.rest == rest.rest
            &&& colored.badge_text == rest.badge_text
            &&& labelled.badge_color == rest.badge_color
            &&& colored.badge_color == (if rest.badge_color is Some {
                rest.badge_color
            } else {
                Some(value)
            })
            &&& labelled.badge_text == (if rest.badge_text is Some {
                rest.badge_text
            } else {
                Some(value)
            })
        }),
{
    reveal_strlit("--badge-color");
    reveal_strlit("--badge-text");
    assert("--badge-color"@.len() != "--badge-text"@.len());
    let none = ParsedView { badge_color: None, badge_text: None, rest: Seq::empty() };
    let colored = seq!["--badge-color"@, value] + args;
    let labelled = seq!["--badge-text"@, value] + args;
    assert(colored.skip(2) =~= args);
    assert(labelled.skip(2) =~= args);
    lemma_options_found(args, none, ParsedView { badge_color: Some(value), ..none });
    lemma_options_found(args, none, ParsedView { badge_text: Some(value), ..none });
}

/// What was found before only counts where nothing is found later.
proof fn lemma_options_found(args: Seq<Seq<char>>, a: ParsedView, b: ParsedView)
    requires
        a.badge_color is None,
        a.badge_text is None,
    ensures
        ({
            let x = options_read(args, a);
            let y = options_read(args, b);
            &&& x.rest == y.rest
            &&& y.badge_color == (if x.badge_color is Some {
                x.badge_color
            } else {
                b.badge_color
            })
            &&& y.badge_text == (if x.badge_text is Some {
                x.badge_text
            } else {
                b.badge_text
            })
        }),
    decreases args.len(),
{
    if args.len() >= 2 && args[0] == "--badge-color"@ {
        lemma_options_found(args.skip(2), a, ParsedView { badge_color: Some(args[1]), ..a });
        lemma_options_found(args.skip(2), a, ParsedView { badge_color: Some(args[1]), ..b });
    } else if args.len() >= 2 && args[0] == "--badge-text"@ {
        lemma_options_found(args.skip(2), a, ParsedView { badge_text: Some(args[1]), ..a });
        lemma_options_found(args.skip(2), a, ParsedView { badge_text: Some(args[1]), ..b });
    }
}

/// Arguments that do not start with an option and its value are all left for
/// the launch, and no badge is set.
pub proof fn law_other_arguments_are_left(args: Seq<Seq<char>>)
    requires
        args.len() < 2 || (args[0] != "--badge-color"@ && args[0] != "--badge-text"@),
    ensures
        parsed(args) == (ParsedView { badge_color: None, badge_text: None, rest: args }),
{
}

/// Without arguments a normal terminal opens; `attach` needs a command; any
/// other argument is unknown.
pub proof fn law_launches_are_told_apart(rest: Seq<Seq<char>>)
    ensures
        rest.len() == 0 ==> launched(rest) == LaunchView::Normal,
        launched(seq!["attach"@]) == LaunchView::MissingCommand,
        rest.len() > 0 && rest[0] != "attach"@ ==> launched(rest) == LaunchView::Unknown(rest[0]),
        launched(rest) is Normal ==> rest.len() == 0,
        launched(rest) is Attach ==> rest.len() > 1 && rest[0] == "attach"@,
{
}

} // verus!
