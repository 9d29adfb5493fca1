//! The arguments of the match command:
//! `[games] [depth] [--vs path] [--openings file] [--paired] [--time N]
//! [--depth N] [--save file] [--resume file] [--no-sprt-stop]`.

use crate::epd::run::{is_depth, is_time, names_depth, names_time, number_or, parse_or};
use crate::selfplay::config::TimeControl;
use crate::selfplay::laws::{law_number_options, law_text_options};
use crate::text::{chars_of, parse_unsigned, string_of, text_is, texts, unsigned_value};
use vstd::prelude::*;

verus! {

/// The settings of a match command.
pub struct MatchOptions {
    pub games: usize,
    pub depth: u32,
    pub time_ms: u64,
    pub use_time: bool,
    pub vs_path: Option<String>,
    pub epd_path: Option<String>,
    pub paired: bool,
    pub save_path: Option<String>,
    pub resume_path: Option<String>,
    pub sprt_stop: bool,
}

/// The settings of a match command, with texts as sequences, and how many
/// numbers without an option were read.
pub struct Chosen {
    pub games: int,
    pub depth: int,
    pub time_ms: int,
    pub use_time: bool,
    pub vs: Option<Seq<char>>,
    pub epd: Option<Seq<char>>,
    pub paired: bool,
    pub save: Option<Seq<char>>,
    pub resume: Option<Seq<char>>,
    pub sprt_stop: bool,
    pub numbers: int,
}

/// The settings without arguments.
pub open spec fn default_choice() -> Chosen {
    Chosen {
        games: 20,
        depth: 5,
        time_ms: 0,
        use_time: false,
        vs: None,
        epd: None,
        paired: false,
        save: None,
        resume: None,
        sprt_stop: true,
        numbers: 0,
    }
}

/// The argument with index `i`, if there is one.
pub open spec fn arg_at(args: Seq<Seq<char>>, i: int) -> Option<Seq<char>> {
    if 0 <= i < args.len() {
        Some(args[i])
    } else {
        None
    }
}

/// A number without an option: the first is the number of games, the second the
/// depth.
pub open spec fn with_number(s: Seq<char>, c: Chosen) -> Chosen {
    if c.numbers == 0 {
        match unsigned_value(s, usize::MAX as int) {
            Some(n) => Chosen { games: n, numbers: 1, ..c },
            None => c,
        }
    } else if c.numbers == 1 {
        match unsigned_value(s, u32::MAX as int) {
            Some(n) => Chosen { depth: n, numbers: 2, ..c },
            None => c,
        }
    } else {
        c
    }
}

/// The settings after the arguments from index `i` on.
pub open spec fn chosen_from(args: Seq<Seq<char>>, i: int, c: Chosen) -> Chosen
    decreases args.len() + 1 - i,
{
    if i >= args.len() {
        c
    } else if args[i] == "--vs"@ {
        chosen_from(args, i + 2, Chosen { vs: arg_at(args, i + 1), ..c })
    } else if args[i] == "--openings"@ {
        chosen_from(args, i + 2, Chosen { epd: arg_at(args, i + 1), ..c })
    } else if args[i] == "--save"@ {
        chosen_from(args, i + 2, Chosen { save: arg_at(args, i + 1), ..c })
    } else if args[i] == "--resume"@ {
        chosen_from(args, i + 2, Chosen { resume: arg_at(args, i + 1), ..c })
    } else if args[i] == "--paired"@ {
        chosen_from(args, i + 1, Chosen { paired: true, ..c })
    } else if args[i] == "--no-sprt-stop"@ {
        chosen_from(args, i + 1, Chosen { sprt_stop: false, ..c })
    } else if names_time(args[i]) {
        if i + 1 < args.len() {
            chosen_from(
                args,
                i + 2,
                Chosen {
                    time_ms: number_or(args[i + 1], u64::MAX as int, 1000),
                    use_time: true,
                    ..c
                },
            )
        } else {
            c
        }
    } else if names_depth(args[i]) {
        if i + 1 < args.len() {
            chosen_from(
                args,
                i + 2,
                Chosen { depth: number_or(args[i + 1], u32::MAX as int, 5), ..c },
            )
        } else {
            c
        }
    } else {
        chosen_from(args, i + 1, with_number(args[i], c))
    }
}

/// The text of an optional string.
pub open spec fn path_text(s: Option<String>) -> Option<Seq<char>> {
    match s {
        Some(t) => Some(t@),
        None => None,
    }
}

impl MatchOptions {
    /// The settings, with texts as sequences.
    pub open spec fn chosen(&self, numbers: int) -> Chosen {
        Chosen {
            games: self.games as int,
            depth: self.depth as int,
            time_ms: self.time_ms as int,
            use_time: self.use_time,
            vs: path_text(self.vs_path),
            epd: path_text(self.epd_path),
            paired: self.paired,
            save: path_text(self.save_path),
            resume: path_text(self.resume_path),
            sprt_stop: self.sprt_stop,
            numbers,
        }
    }

    /// The settings without arguments.
    fn standard() -> (r: MatchOptions)
        ensures
            r.chosen(0) == default_choice(),
    {
        MatchOptions {
            games: 20,
            depth: 5,
            time_ms: 0,
            use_time: false,
            vs_path: None,
            epd_path: None,
            paired: false,
            save_path: None,
            resume_path: None,
            sprt_stop: true,
        }
    }

    /// Read the arguments of a match command.
    #[verifier::rlimit(30)]
    pub fn parse(args: &Vec<String>) -> (r: MatchOptions)
        ensures
            exists|numbers: int|
                #[trigger] r.chosen(numbers) == chosen_from(texts(args@), 0, default_choice()),
    {
        let ghost ts = texts(args@);
        let mut o = MatchOptions::standard();
        let mut numbers: u8 = 0;
        let mut i: usize = 0;
        while i < args.len()
            invariant
                i <= args@.len() + 1,
                ts == texts(args@),
                ts.len() == args@.len(),
                forall|k: int| 0 <= k < ts.len() ==> #[trigger] ts[k] == args@[k]@,
                numbers <= 2,
                chosen_from(ts, i as int, o.chosen(numbers as int)) == chosen_from(
                    ts,
                    0,
                    default_choice(),
                ),
            decreases args@.len() + 1 - i,
        {
            let a = chars_of(args[i].as_str());
            let more = args.len() - i >= 2;
            let ghost c0 = o.chosen(numbers as int);
            let ghost i0 = i as int;
            proof {
                assert(ts[i0] == a@);
            }
            if text_is(&a, "--vs") {
                o.vs_path = copy_arg(args, i);
                i += 1;
                if more {
                    i += 1;
                }
                proof {
                    assert(o.chosen(numbers as int) == (Chosen { vs: arg_at(ts, i0 + 1), ..c0 }));
                    assert(chosen_from(ts, i0, c0) == chosen_from(
                        ts,
                        i0 + 2,
                        o.chosen(numbers as int),
                    ));
                }
            } else if text_is(&a, "--openings") {
                o.epd_path = copy_arg(args, i);
                i += 1;
                if more {
                    i += 1;
                }
                proof {
                    assert(o.chosen(numbers as int) == (Chosen { epd: arg_at(ts, i0 + 1), ..c0 }));
                    assert(chosen_from(ts, i0, c0) == chosen_from(
                        ts,
                        i0 + 2,
                        o.chosen(numbers as int),
                    ));
                }
            } else if text_is(&a, "--save") {
                o.save_path = copy_arg(args, i);
                i += 1;
                if more {
                    i += 1;
                }
                proof {
                    assert(o.chosen(numbers as int) == (Chosen { save: arg_at(ts, i0 + 1), ..c0 }));
                    assert(chosen_from(ts, i0, c0) == chosen_from(
                        ts,
                        i0 + 2,
                        o.chosen(numbers as int),
                    ));
                }
            } else if text_is(&a, "--resume") {
                o.resume_path = copy_arg(args, i);
                i += 1;
                if more {
                    i += 1;
                }
                proof {
                    assert(o.chosen(numbers as int) == (Chosen { resume: arg_at(ts, i0 + 1), ..c0 }));
                    assert(chosen_from(ts, i0, c0) == chosen_from(
                        ts,
                        i0 + 2,
                        o.chosen(numbers as int),
                    ));
                }
            } else if text_is(&a, "--paired") {
                o.paired = true;
                i += 1;
            } else if text_is(&a, "--no-sprt-stop") {
                o.sprt_stop = false;
                i += 1;
            } else if is_time(&a) {
                if more {
                    o.time_ms = parse_or(&chars_of(args[i + 1].as_str()), u64::MAX, 1000);
                    o.use_time = true;
                    i += 2;
                } else {
                    i += 1;
                }
            } else if is_depth(&a) {
                if more {
                    o.depth = parse_or(&chars_of(args[i + 1].as_str()), 0xffff_ffff, 5) as u32;
                    i += 2;
                } else {
                    i += 1;
                }
            } else {
                if numbers == 0 {
                    if let Some(n) = parse_unsigned(&a, usize::MAX as u64) {
                        o.games = n as usize;
                        numbers = 1;
                    }
                } else if numbers == 1 {
                    if let Some(n) = parse_unsigned(&a, 0xffff_ffff) {
                        o.depth = n as u32;
                        numbers = 2;
                    }
                }
                i += 1;
                proof {
                    assert(o.chosen(numbers as int) == with_number(a@, c0));
                }
            }
        }
        proof {
            assert(o.chosen(numbers as int) == chosen_from(ts, 0, default_choice()));
        }
        o
    }

    /// The time control: the time per move if one is given, else the depth.
    pub fn time_control(&self) -> (r: TimeControl)
        ensures
            r == (if self.use_time {
                TimeControl::MoveTime(self.time_ms)
            } else {
                TimeControl::FixedDepth(self.depth)
            }),
            controlled(self.chosen(0), r),
    {
        if self.use_time {
            TimeControl::MoveTime(self.time_ms)
        } else {
            TimeControl::FixedDepth(self.depth)
        }
    }

    /// A match is stopped by a sequential test only against another engine, and
    /// not if that is switched off.
    pub fn wants_sprt(&self) -> (r: bool)
        ensures
            r == (self.sprt_stop && self.vs_path is Some),
            r == tested(self.chosen(0)),
    {
        self.sprt_stop && self.vs_path.is_some()
    }
}

/// A copy of the argument behind index `i`.
fn copy_arg(args: &Vec<String>, i: usize) -> (r: Option<String>)
    requires
        i < args@.len(),
    ensures
        path_text(r) == arg_at(texts(args@), i + 1),
{
    if args.len() - i >= 2 {
        Some(string_of(&chars_of(args[i + 1].as_str())))
    } else {
        None
    }
}

/// The time control is that of the settings.
pub open spec fn controlled(c: Chosen, tc: TimeControl) -> bool {
    match tc {
        TimeControl::FixedDepth(d) => !c.use_time && d == c.depth,
        TimeControl::MoveTime(ms) => c.use_time && ms == c.time_ms,
    }
}

/// The match may be stopped by a test.
pub open spec fn tested(c: Chosen) -> bool {
    c.sprt_stop && c.vs is Some
}

/// A match is played by time exactly when a time was given, else to a depth; it is tested
/// exactly when it is played against another engine and the test is not switched off.
pub proof fn law_settings(v: Seq<char>, d: u32, ms: u64)
    requires
        number_or(v, u64::MAX as int, 1000) == ms,
        number_or(v, u32::MAX as int, 5) == d,
    ensures
        ({
            let c = default_choice();
            let timed = chosen_from(seq![seq!['-', 't'], v], 0, c);
            let deep = chosen_from(seq![seq!['-', 'd'], v], 0, c);
            let versus = chosen_from(seq!["--vs"@, v], 0, c);
            &&& controlled(timed, TimeControl::MoveTime(ms))
            &&& !controlled(timed, TimeControl::FixedDepth(d))
            &&& controlled(deep, TimeControl::FixedDepth(d))
            &&& controlled(c, TimeControl::FixedDepth(5))
            &&& !tested(c)
            &&& tested(versus)
            &&& !tested(chosen_from(seq!["--no-sprt-stop"@], 0, versus))
        }),
{
    law_number_options(v, v, default_choice());
    law_text_options(v, default_choice());
    law_text_options(v, chosen_from(seq!["--vs"@, v], 0, default_choice()));
}

} // verus!
