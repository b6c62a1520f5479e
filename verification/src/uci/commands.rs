//! The commands of the Universal Chess Interface that the engine reads.
use vstd::prelude::*;

use crate::engine::model::GameState;
use crate::engine::model::game_state_impl::GameView;
use crate::engine::search::{SearchOptions, no_options};
use crate::uci::fen::{self, INITIAL_FEN, fen_spec, fields_spec, replay, texts, with_moves_spec};
use crate::uci::text::{chars_of, copy_chars, is_word, parse_number, parse_unsigned, split_words, words};

verus! {

/// A command from the interface.
pub enum GUICommand {
    UCI,
    IsReady,
    Position(GameState),
    Perft(u32),
    Go(SearchOptions),
    Quit,
}

/// A command as a value: the position it sets by its view.
pub enum CommandView {
    UCI,
    IsReady,
    Position(GameView),
    Perft(u32),
    Go(SearchOptions),
    Quit,
}

impl View for GUICommand {
    type V = CommandView;

    open spec fn view(&self) -> CommandView {
        match self {
            GUICommand::UCI => CommandView::UCI,
            GUICommand::IsReady => CommandView::IsReady,
            GUICommand::Position(g) => CommandView::Position(g@),
            GUICommand::Perft(n) => CommandView::Perft(*n),
            GUICommand::Go(o) => CommandView::Go(*o),
            GUICommand::Quit => CommandView::Quit,
        }
    }
}

/// The command the words of a line make, if it is one the engine knows:
/// `uci`, `isready`, `position`, `go` or `quit`. A line without a word is no
/// command.
pub open spec fn command_spec(w: Seq<Seq<char>>) -> Option<CommandView> {
    let head = w[0];
    if w.len() == 0 {
        None
    } else if head == "uci"@ {
        Some(CommandView::UCI)
    } else if head == "isready"@ {
        Some(CommandView::IsReady)
    } else if head == "position"@ {
        position_spec(w)
    } else if head == "go"@ {
        go_spec(w)
    } else if head == "quit"@ {
        Some(CommandView::Quit)
    } else {
        None
    }
}

/// The position a `position` command sets: `startpos` or `fen` and the six
/// fields of a FEN record, each optionally followed by `moves` and the moves
/// to play from there.
pub open spec fn position_spec(w: Seq<Seq<char>>) -> Option<CommandView> {
    let g = if w.len() == 2 && w[1] == "startpos"@ {
        fen_spec(INITIAL_FEN@)
    } else if w.len() >= 3 && w[1] == "startpos"@ && w[2] == "moves"@ {
        with_moves_spec(INITIAL_FEN@, w.skip(3))
    } else if w.len() == 8 && w[1] == "fen"@ {
        fields_spec(w.subrange(2, 8))
    } else if w.len() >= 9 && w[1] == "fen"@ && w[8] == "moves"@ {
        match fields_spec(w.subrange(2, 8)) {
            Some(v) => replay(v, w.skip(9)),
            None => None,
        }
    } else {
        None
    };
    match g {
        Some(v) => Some(CommandView::Position(v)),
        None => None,
    }
}

/// The command a `go` line makes: `go perft` and a depth, or a search with
/// the clocks the line gives.
pub open spec fn go_spec(w: Seq<Seq<char>>) -> Option<CommandView> {
    if w.len() == 3 && w[1] == "perft"@ {
        match parse_unsigned(w[2], u32::MAX as nat) {
            Some(n) => Some(CommandView::Perft(n as u32)),
            None => None,
        }
    } else {
        Some(CommandView::Go(go_arguments_spec(no_options(), w)))
    }
}

/// The value of a clock argument, when it is a number.
pub open spec fn number_arg(s: Seq<char>) -> Option<u32> {
    match parse_unsigned(s, u32::MAX as nat) {
        Some(n) => Some(n as u32),
        None => None,
    }
}

/// Reads clock arguments: each of `wtime`, `winc`, `btime`, `binc` and
/// `movestogo` followed by a word sets its option when the word is a number,
/// and the pair is passed over either way; any other word is passed over.
pub open spec fn go_arguments_spec(acc: SearchOptions, args: Seq<Seq<char>>) -> SearchOptions
    decreases args.len(),
{
    if args.len() == 0 {
        acc
    } else if args.len() >= 2 && (args[0] == "wtime"@ || args[0] == "winc"@ || args[0] == "btime"@
        || args[0] == "binc"@ || args[0] == "movestogo"@) {
        let next = match number_arg(args[1]) {
            Some(t) => if args[0] == "wtime"@ {
                SearchOptions { white_time: Some(t), ..acc }
            } else if args[0] == "winc"@ {
                SearchOptions { white_increment: Some(t), ..acc }
            } else if args[0] == "btime"@ {
                SearchOptions { black_time: Some(t), ..acc }
            } else if args[0] == "binc"@ {
                SearchOptions { black_increment: Some(t), ..acc }
            } else {
                SearchOptions { moves_to_go: Some(t), ..acc }
            },
            None => acc,
        };
        go_arguments_spec(next, args.skip(2))
    } else {
        go_arguments_spec(acc, args.skip(1))
    }
}

/// Reads a command line; a line that is no known command, an empty or blank
/// one among them, gives `None`.
pub fn parse(command: &str) -> (r: Option<GUICommand>)
    ensures
        r is Some <==> command_spec(words(command@)) is Some,
        r matches Some(c) ==> c@ == command_spec(words(command@))->0,
{
    let chars = chars_of(command);
    let w = split_words(&chars);
    proof {
        assert(texts(w@) == words(command@));
        assert(w@.len() == texts(w@).len());
    }
    if w.len() == 0 {
        return None;
    }
    let head = &w[0];
    if is_word(head, "uci") {
        Some(GUICommand::UCI)
    } else if is_word(head, "isready") {
        Some(GUICommand::IsReady)
    } else if is_word(head, "position") {
        parse_position(&w)
    } else if is_word(head, "go") {
        parse_go(&w)
    } else if is_word(head, "quit") {
        Some(GUICommand::Quit)
    } else {
        None
    }
}

/// The words from index `from` up to index `to`.
fn copy_words(w: &Vec<Vec<char>>, from: usize, to: usize) -> (r: Vec<Vec<char>>)
    requires
        from <= to <= w.len(),
    ensures
        texts(r@) == texts(w@).subrange(from as int, to as int),
{
    let mut r: Vec<Vec<char>> = Vec::new();
    let mut i: usize = from;
    while i < to
        invariant
            from <= i <= to <= w.len(),
            r.len() == i - from,
            texts(r@) == texts(w@).subrange(from as int, i as int),
        decreases to - i,
    {
        let ghost before = r@;
        r.push(copy_chars(&w[i]));
        proof {
            let a = texts(r@);
            let b = texts(w@).subrange(from as int, i + 1);
            assert forall|k: int| 0 <= k < a.len() implies a[k] == b[k] by {
                if k < i - from {
                    assert(a[k] == texts(before)[k]);
                }
            }
            assert(a =~= b);
        }
        i += 1;
    }
    r
}

/// Reads a `position` command.
fn parse_position(w: &Vec<Vec<char>>) -> (r: Option<GUICommand>)
    requires
        w.len() > 0,
    ensures
        r is Some <==> position_spec(texts(w@)) is Some,
        r matches Some(c) ==> c@ == position_spec(texts(w@))->0,
{
    let ghost t = texts(w@);
    let position = if w.len() == 2 && is_word(&w[1], "startpos") {
        fen::parse(INITIAL_FEN)
    } else if w.len() >= 3 && is_word(&w[1], "startpos") && is_word(&w[2], "moves") {
        match fen::parse(INITIAL_FEN) {
            Some(g) => fen::play_moves(g, w, 3),
            None => None,
        }
    } else if w.len() == 8 && is_word(&w[1], "fen") {
        fen::parse_fields(&copy_words(w, 2, 8))
    } else if w.len() >= 9 && is_word(&w[1], "fen") && is_word(&w[8], "moves") {
        match fen::parse_fields(&copy_words(w, 2, 8)) {
            Some(g) => fen::play_moves(g, w, 9),
            None => None,
        }
    } else {
        None
    };
    match position {
        Some(g) => Some(GUICommand::Position(g)),
        None => None,
    }
}

/// Reads a `go` command.
fn parse_go(w: &Vec<Vec<char>>) -> (r: Option<GUICommand>)
    requires
        w.len() > 0,
    ensures
        r is Some <==> go_spec(texts(w@)) is Some,
        r matches Some(c) ==> c@ == go_spec(texts(w@))->0,
{
    if w.len() == 3 && is_word(&w[1], "perft") {
        match parse_number(&w[2], u32::MAX) {
            Some(n) => Some(GUICommand::Perft(n)),
            None => None,
        }
    } else {
        let mut contents = SearchOptions::new();
        parse_go_arguments(w, &mut contents);
        Some(GUICommand::Go(contents))
    }
}

/// Reads the clock arguments of a `go` command into `result`.
fn parse_go_arguments(arguments: &Vec<Vec<char>>, result: &mut SearchOptions)
    ensures
        *final(result) == go_arguments_spec(*old(result), texts(arguments@)),
{
    let ghost all = texts(arguments@);
    let ghost start = *result;
    let mut i: usize = 0;
    proof {
        assert(all.skip(0) =~= all);
    }
    while i < arguments.len()
        invariant
            0 <= i <= arguments.len(),
            all == texts(arguments@),
            all.len() == arguments.len(),
            go_arguments_spec(start, all) == go_arguments_spec(*result, all.skip(i as int)),
        decreases arguments.len() - i,
    {
        let ghost rest = all.skip(i as int);
        let ghost acc = *result;
        proof {
            assert(rest[0] == arguments@[i as int]@);
        }
        if i + 1 < arguments.len() {
            proof {
                assert(rest[1] == arguments@[i + 1]@);
                assert(rest.skip(2) =~= all.skip(i + 2));
            }
            let key = &arguments[i];
            let is_white_time = is_word(key, "wtime");
            let is_white_increment = is_word(key, "winc");
            let is_black_time = is_word(key, "btime");
            let is_black_increment = is_word(key, "binc");
            let is_moves_to_go = is_word(key, "movestogo");
            if is_white_time || is_white_increment || is_black_time || is_black_increment || is_moves_to_go {
                if let Some(t) = parse_number(&arguments[i + 1], u32::MAX) {
                    if is_white_time {
                        result.white_time = Some(t);
                    } else if is_white_increment {
                        result.white_increment = Some(t);
                    } else if is_black_time {
                        result.black_time = Some(t);
                    } else if is_black_increment {
                        result.black_increment = Some(t);
                    } else {
                        result.moves_to_go = Some(t);
                    }
                }
                i += 2;
                continue;
            }
        }
        proof {
            assert(rest.skip(1) =~= all.skip(i + 1));
        }
        i += 1;
    }
    proof {
        assert(all.skip(i as int) =~= Seq::<Seq<char>>::empty());
    }
}

/// No word of `args` is `w`.
pub open spec fn lacks_word(args: Seq<Seq<char>>, w: Seq<char>) -> bool {
    forall|i: int| 0 <= i < args.len() ==> args[i] != w
}

/// The clock keywords are five different words.
proof fn lemma_keywords_differ()
    ensures
        "wtime"@ != "winc"@ && "wtime"@ != "btime"@ && "wtime"@ != "binc"@ && "wtime"@ != "movestogo"@,
        "winc"@ != "btime"@ && "winc"@ != "binc"@ && "winc"@ != "movestogo"@,
        "btime"@ != "binc"@ && "btime"@ != "movestogo"@ && "binc"@ != "movestogo"@,
{
    reveal_strlit("wtime");
    reveal_strlit("winc");
    reveal_strlit("btime");
    reveal_strlit("binc");
    reveal_strlit("movestogo");
    assert("wtime"@.len() == 5 && "btime"@.len() == 5 && "winc"@.len() == 4 && "binc"@.len() == 4);
    assert("movestogo"@.len() == 9);
    assert("wtime"@[0] != "btime"@[0]);
    assert("winc"@[0] != "binc"@[0]);
}

/// A clock option changes only through its own keyword: reading arguments
/// in which a keyword never appears leaves the option it names as it was.
pub proof fn lemma_go_keeps_unnamed(acc: SearchOptions, args: Seq<Seq<char>>)
    ensures
        lacks_word(args, "wtime"@) ==> go_arguments_spec(acc, args).white_time == acc.white_time,
        lacks_word(args, "winc"@) ==> go_arguments_spec(acc, args).white_increment == acc.white_increment,
        lacks_word(args, "btime"@) ==> go_arguments_spec(acc, args).black_time == acc.black_time,
        lacks_word(args, "binc"@) ==> go_arguments_spec(acc, args).black_increment == acc.black_increment,
        lacks_word(args, "movestogo"@) ==> go_arguments_spec(acc, args).moves_to_go == acc.moves_to_go,
    decreases args.len(),
{
    reveal_strlit("wtime");
    reveal_strlit("winc");
    reveal_strlit("btime");
    reveal_strlit("binc");
    reveal_strlit("movestogo");
    if args.len() == 0 {
    } else if args.len() >= 2 && (args[0] == "wtime"@ || args[0] == "winc"@ || args[0] == "btime"@
        || args[0] == "binc"@ || args[0] == "movestogo"@) {
        let next = match number_arg(args[1]) {
            Some(t) => if args[0] == "wtime"@ {
                SearchOptions { white_time: Some(t), ..acc }
            } else if args[0] == "winc"@ {
                SearchOptions { white_increment: Some(t), ..acc }
            } else if args[0] == "btime"@ {
                SearchOptions { black_time: Some(t), ..acc }
            } else if args[0] == "binc"@ {
                SearchOptions { black_increment: Some(t), ..acc }
            } else {
                SearchOptions { moves_to_go: Some(t), ..acc }
            },
            None => acc,
        };
        lemma_go_keeps_unnamed(next, args.skip(2));
        assert forall|w: Seq<char>| lacks_word(args, w) implies lacks_word(args.skip(2), w) by {
            assert forall|i: int| 0 <= i < args.skip(2).len() implies args.skip(2)[i] != w by {
                assert(args.skip(2)[i] == args[i + 2]);
            }
        }
        assert(lacks_word(args, "wtime"@) ==> args[0] != "wtime"@);
        assert(lacks_word(args, "winc"@) ==> args[0] != "winc"@);
        assert(lacks_word(args, "btime"@) ==> args[0] != "btime"@);
        assert(lacks_word(args, "binc"@) ==> args[0] != "binc"@);
        assert(lacks_word(args, "movestogo"@) ==> args[0] != "movestogo"@);
    } else {
        lemma_go_keeps_unnamed(acc, args.skip(1));
        assert forall|w: Seq<char>| lacks_word(args, w) implies lacks_word(args.skip(1), w) by {
            assert forall|i: int| 0 <= i < args.skip(1).len() implies args.skip(1)[i] != w by {
                assert(args.skip(1)[i] == args[i + 1]);
            }
        }
    }
}

/// A keyword followed by a number sets the option it names to that number
/// when the keyword does not come again: `wtime` the white time, `winc` the
/// white increment, `btime` the black time, `binc` the black increment,
/// `movestogo` the moves to go. The other options keep their values unless
/// their own keywords follow.
pub proof fn lemma_go_sets_named(acc: SearchOptions, key: Seq<char>, n: Seq<char>, rest: Seq<Seq<char>>)
    requires
        key == "wtime"@ || key == "winc"@ || key == "btime"@ || key == "binc"@ || key == "movestogo"@,
        number_arg(n) is Some,
        lacks_word(rest, key),
    ensures
        ({
            let r = go_arguments_spec(acc, seq![key, n] + rest);
            let t = number_arg(n);
            &&& key == "wtime"@ ==> r.white_time == t
            &&& key == "winc"@ ==> r.white_increment == t
            &&& key == "btime"@ ==> r.black_time == t
            &&& key == "binc"@ ==> r.black_increment == t
            &&& key == "movestogo"@ ==> r.moves_to_go == t
            &&& key != "btime"@ && lacks_word(rest, "btime"@) ==> r.black_time == acc.black_time
            &&& key != "binc"@ && lacks_word(rest, "binc"@) ==> r.black_increment == acc.black_increment
            &&& key != "wtime"@ && lacks_word(rest, "wtime"@) ==> r.white_time == acc.white_time
            &&& key != "winc"@ && lacks_word(rest, "winc"@) ==> r.white_increment == acc.white_increment
            &&& key != "movestogo"@ && lacks_word(rest, "movestogo"@) ==> r.moves_to_go == acc.moves_to_go
        }),
{
    let args = seq![key, n] + rest;
    assert(args[0] == key && args[1] == n);
    assert(args.skip(2) =~= rest);
    assert(args.skip(1)[0] == n);
    {
        reveal_strlit("wtime");
        reveal_strlit("winc");
        reveal_strlit("btime");
        reveal_strlit("binc");
        reveal_strlit("movestogo");
        let t = number_arg(n)->0;
        let next = if key == "wtime"@ {
            SearchOptions { white_time: Some(t), ..acc }
        } else if key == "winc"@ {
            SearchOptions { white_increment: Some(t), ..acc }
        } else if key == "btime"@ {
            SearchOptions { black_time: Some(t), ..acc }
        } else if key == "binc"@ {
            SearchOptions { black_increment: Some(t), ..acc }
        } else {
            SearchOptions { moves_to_go: Some(t), ..acc }
        };
        lemma_keywords_differ();
        assert(go_arguments_spec(acc, args) == go_arguments_spec(next, rest));
        lemma_go_keeps_unnamed(next, rest);
    }
}

} // verus!
