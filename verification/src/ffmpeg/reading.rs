//! How FFmpeg reads a command: which value it takes for which flag.
//!
//! What an operation is for is said in these terms, over the finished arguments:
//! which files a command reads, and what each flag is set to.

use vstd::prelude::*;
use crate::ffmpeg::builder::{operand, Command};

verus! {

/// Whether an argument begins with a dash.
pub open spec fn dashed(a: Seq<char>) -> bool {
    a.len() > 0 && a[0] == '-'
}

/// Whether a flag takes no value.
pub open spec fn stands_alone(a: Seq<char>) -> bool {
    a == "-hide_banner"@ || a == "-y"@ || a == "-n"@ || a == "-nostats"@
}

/// Whether every flag that takes a value has one.
pub open spec fn whole(args: Seq<Seq<char>>) -> bool
    decreases args.len(),
{
    if args.len() == 0 {
        true
    } else if stands_alone(args[0]) || !dashed(args[0]) {
        whole(args.skip(1))
    } else {
        args.len() >= 2 && whole(args.skip(2))
    }
}

/// The values that a flag is given, in order.
pub open spec fn given(args: Seq<Seq<char>>, flag: Seq<char>) -> Seq<Seq<char>>
    decreases args.len(),
{
    if args.len() == 0 {
        Seq::empty()
    } else if stands_alone(args[0]) || !dashed(args[0]) {
        given(args.skip(1), flag)
    } else if args.len() == 1 {
        Seq::empty()
    } else if args[0] == flag {
        seq![args[1]] + given(args.skip(2), flag)
    } else {
        given(args.skip(2), flag)
    }
}

/// The values that a flag is given ahead of the first input: they say how that
/// input is read, not how the output is written.
pub open spec fn given_ahead(args: Seq<Seq<char>>, flag: Seq<char>) -> Seq<Seq<char>>
    decreases args.len(),
{
    if args.len() == 0 {
        Seq::empty()
    } else if stands_alone(args[0]) || !dashed(args[0]) {
        given_ahead(args.skip(1), flag)
    } else if args.len() == 1 || args[0] == "-i"@ {
        Seq::empty()
    } else if args[0] == flag {
        seq![args[1]] + given_ahead(args.skip(2), flag)
    } else {
        given_ahead(args.skip(2), flag)
    }
}

/// The arguments that belong to no flag: the files that are written.
pub open spec fn written(args: Seq<Seq<char>>) -> Seq<Seq<char>>
    decreases args.len(),
{
    if args.len() == 0 {
        Seq::empty()
    } else if stands_alone(args[0]) {
        written(args.skip(1))
    } else if !dashed(args[0]) {
        seq![args[0]] + written(args.skip(1))
    } else if args.len() == 1 {
        Seq::empty()
    } else {
        written(args.skip(2))
    }
}

/// Reading goes on behind what has been read.
proof fn lemma_more(a: Seq<Seq<char>>, b: Seq<Seq<char>>, flag: Seq<char>)
    requires
        whole(a),
    ensures
        whole(a + b) == whole(b),
        given(a + b, flag) == given(a, flag) + given(b, flag),
        written(a + b) == written(a) + written(b),
    decreases a.len(),
{
    let all = a + b;
    if a.len() == 0 {
        assert(all =~= b);
        assert(given(a, flag) + given(b, flag) =~= given(b, flag));
        assert(written(a) + written(b) =~= written(b));
    } else if stands_alone(a[0]) || !dashed(a[0]) {
        assert(all.skip(1) =~= a.skip(1) + b);
        lemma_more(a.skip(1), b, flag);
        if !stands_alone(a[0]) {
            assert(seq![a[0]] + (written(a.skip(1)) + written(b)) =~= seq![a[0]] + written(
                a.skip(1),
            ) + written(b));
        }
    } else {
        assert(all.skip(2) =~= a.skip(2) + b);
        lemma_more(a.skip(2), b, flag);
        if a[0] == flag {
            assert(seq![a[1]] + (given(a.skip(2), flag) + given(b, flag)) =~= seq![a[1]] + given(
                a.skip(2),
                flag,
            ) + given(b, flag));
        }
    }
}

/// The same for what is given ahead of the first input.
proof fn lemma_more_ahead(a: Seq<Seq<char>>, b: Seq<Seq<char>>, flag: Seq<char>)
    requires
        whole(a),
    ensures
        given_ahead(a + b, flag) == (if given(a, "-i"@).len() == 0 {
            given_ahead(a, flag) + given_ahead(b, flag)
        } else {
            given_ahead(a, flag)
        }),
    decreases a.len(),
{
    let all = a + b;
    if a.len() == 0 {
        assert(all =~= b);
        assert(given_ahead(a, flag) + given_ahead(b, flag) =~= given_ahead(b, flag));
    } else if stands_alone(a[0]) || !dashed(a[0]) {
        assert(all.skip(1) =~= a.skip(1) + b);
        lemma_more_ahead(a.skip(1), b, flag);
    } else if a[0] == "-i"@ {
    } else {
        assert(all.skip(2) =~= a.skip(2) + b);
        lemma_more_ahead(a.skip(2), b, flag);
        if a[0] == flag {
            assert(seq![a[1]] + (given_ahead(a.skip(2), flag) + given_ahead(b, flag)) =~= seq![a[1]]
                + given_ahead(a.skip(2), flag) + given_ahead(b, flag));
        }
    }
}

/// A flag with its value is read as one.
pub broadcast proof fn lemma_given_pair(
    a: Seq<Seq<char>>,
    f: Seq<char>,
    v: Seq<char>,
    flag: Seq<char>,
)
    requires
        whole(a),
        dashed(f),
        !stands_alone(f),
    ensures
        #[trigger] given(a.push(f).push(v), flag) == (if f == flag {
            given(a, flag).push(v)
        } else {
            given(a, flag)
        }),
{
    let b = seq![f, v];
    assert(a + b =~= a.push(f).push(v));
    lemma_more(a, b, flag);
    assert(b.skip(2) =~= Seq::<Seq<char>>::empty());
    assert(given(b.skip(2), flag) =~= Seq::<Seq<char>>::empty());
    if f == flag {
        assert(given(b, flag) =~= seq![v]);
        assert(given(a, flag) + seq![v] =~= given(a, flag).push(v));
    } else {
        assert(given(b, flag) =~= Seq::<Seq<char>>::empty());
        assert(given(a, flag) + Seq::<Seq<char>>::empty() =~= given(a, flag));
    }
}

/// A flag with its value is complete.
pub broadcast proof fn lemma_whole_pair(a: Seq<Seq<char>>, f: Seq<char>, v: Seq<char>)
    requires
        whole(a),
        dashed(f),
        !stands_alone(f),
    ensures
        #[trigger] whole(a.push(f).push(v)),
{
    let b = seq![f, v];
    assert(a + b =~= a.push(f).push(v));
    lemma_more(a, b, f);
    assert(b.skip(2) =~= Seq::<Seq<char>>::empty());
    assert(whole(b.skip(2)));
}

/// A flag with its value writes no file.
pub broadcast proof fn lemma_written_pair(a: Seq<Seq<char>>, f: Seq<char>, v: Seq<char>)
    requires
        whole(a),
        dashed(f),
        !stands_alone(f),
    ensures
        #[trigger] written(a.push(f).push(v)) == written(a),
{
    let b = seq![f, v];
    assert(a + b =~= a.push(f).push(v));
    lemma_more(a, b, f);
    assert(b.skip(2) =~= Seq::<Seq<char>>::empty());
    assert(written(b.skip(2)) =~= Seq::<Seq<char>>::empty());
    assert(written(a) + written(b) =~= written(a));
}

/// Only what comes ahead of the first input counts as ahead of it.
pub broadcast proof fn lemma_ahead_pair(
    a: Seq<Seq<char>>,
    f: Seq<char>,
    v: Seq<char>,
    flag: Seq<char>,
)
    requires
        whole(a),
        dashed(f),
        !stands_alone(f),
    ensures
        #[trigger] given_ahead(a.push(f).push(v), flag) == (if given(a, "-i"@).len() == 0 && f
            != "-i"@ && f == flag {
            given_ahead(a, flag).push(v)
        } else {
            given_ahead(a, flag)
        }),
{
    let b = seq![f, v];
    assert(a + b =~= a.push(f).push(v));
    lemma_more_ahead(a, b, flag);
    assert(b.skip(2) =~= Seq::<Seq<char>>::empty());
    assert(given_ahead(b.skip(2), flag) =~= Seq::<Seq<char>>::empty());
    if f == flag && f != "-i"@ {
        assert(given_ahead(b, flag) =~= seq![v]);
        assert(given_ahead(a, flag) + seq![v] =~= given_ahead(a, flag).push(v));
    } else {
        assert(given_ahead(b, flag) =~= Seq::<Seq<char>>::empty());
        assert(given_ahead(a, flag) + Seq::<Seq<char>>::empty() =~= given_ahead(a, flag));
    }
}

pub broadcast group group_reading {
    lemma_given_pair,
    lemma_whole_pair,
    lemma_written_pair,
    lemma_ahead_pair,
}

/// A file at the end changes no flag, and is written.
pub proof fn lemma_closed(a: Seq<Seq<char>>, path: Seq<char>)
    requires
        whole(a),
    ensures
        whole(a.push(operand(path))),
        forall|flag: Seq<char>| #[trigger]
            given(a.push(operand(path)), flag) == given(a, flag),
        forall|flag: Seq<char>| #[trigger]
            given_ahead(a.push(operand(path)), flag) == given_ahead(a, flag),
        written(a.push(operand(path))) == written(a).push(operand(path)),
{
    let o = operand(path);
    let b = seq![o];
    lemma_flags();
    assert(a + b =~= a.push(o));
    assert(b.skip(1) =~= Seq::<Seq<char>>::empty());
    assert(written(b.skip(1)) =~= Seq::<Seq<char>>::empty());
    assert(!dashed(o));
    assert(!stands_alone(o)) by {
        if stands_alone(o) {
            assert(dashed(o));
        }
    }
    assert(written(b) =~= seq![o]);
    assert(whole(b.skip(1)));
    lemma_more(a, b, o);
    assert(written(a) + seq![o] =~= written(a).push(o));
    assert forall|flag: Seq<char>| #[trigger] given(a.push(o), flag) == given(a, flag) by {
        lemma_more(a, b, flag);
        assert(given(b.skip(1), flag) =~= Seq::<Seq<char>>::empty());
        assert(given(a, flag) + given(b, flag) =~= given(a, flag));
    }
    assert forall|flag: Seq<char>| #[trigger] given_ahead(a.push(o), flag) == given_ahead(a, flag) by {
        lemma_more_ahead(a, b, flag);
        assert(given_ahead(b.skip(1), flag) =~= Seq::<Seq<char>>::empty());
        assert(given_ahead(a, flag) + given_ahead(b, flag) =~= given_ahead(a, flag));
    }
}

/// What the flags that every command carries set.
pub proof fn lemma_globals(program: Seq<char>)
    ensures
        whole(Command::new(program).globals(true).args),
        forall|flag: Seq<char>| #[trigger]
            given(Command::new(program).globals(true).args, flag) == (if flag == "-progress"@ {
                seq!["pipe:1"@]
            } else {
                Seq::<Seq<char>>::empty()
            }),
        forall|flag: Seq<char>| flag != "-progress"@ ==> #[trigger]
            given_ahead(Command::new(program).globals(true).args, flag) == Seq::<Seq<char>>::empty(),
        written(Command::new(program).globals(true).args) == Seq::<Seq<char>>::empty(),
{
    lemma_flags();
    reveal_with_fuel(whole, 6);
    reveal_with_fuel(given, 6);
    reveal_with_fuel(given_ahead, 6);
    reveal_with_fuel(written, 6);
    let g = Command::new(program).globals(true).args;
    assert(g.len() == 5);
    let a = g.skip(1);
    let b = a.skip(1);
    let c = b.skip(2);
    let d = c.skip(1);
    assert(g[0] == "-hide_banner"@ && a[0] == "-y"@ && b[0] == "-progress"@ && b[1] == "pipe:1"@
        && c[0] == "-nostats"@ && d.len() == 0);
    assert forall|flag: Seq<char>| #[trigger] given(g, flag) == (if flag == "-progress"@ {
        seq!["pipe:1"@]
    } else {
        Seq::<Seq<char>>::empty()
    }) by {
        assert(given(d, flag) =~= Seq::<Seq<char>>::empty());
        assert(given(c, flag) =~= Seq::<Seq<char>>::empty());
        assert(seq!["pipe:1"@] + given(c, flag) =~= seq!["pipe:1"@]);
    }
}

/// The flags are told apart.
pub proof fn lemma_flags()
    ensures
        "-hide_banner"@.len() == 12 && "-hide_banner"@[0] == '-',
        "-y"@.len() == 2 && "-y"@[0] == '-' && "-y"@[1] == 'y',
        "-n"@.len() == 2 && "-n"@[0] == '-' && "-n"@[1] == 'n',
        "-i"@.len() == 2 && "-i"@[0] == '-' && "-i"@[1] == 'i',
        "-t"@.len() == 2 && "-t"@[0] == '-' && "-t"@[1] == 't',
        "-c"@.len() == 2 && "-c"@[0] == '-' && "-c"@[1] == 'c',
        "-f"@.len() == 2 && "-f"@[0] == '-' && "-f"@[1] == 'f',
        "-ss"@.len() == 3 && "-ss"@[0] == '-' && "-ss"@[1] == 's',
        "-to"@.len() == 3 && "-to"@[0] == '-' && "-to"@[1] == 't',
        "-vf"@.len() == 3 && "-vf"@[0] == '-' && "-vf"@[1] == 'v',
        "-cq"@.len() == 3 && "-cq"@[0] == '-' && "-cq"@[1] == 'c',
        "-c:v"@.len() == 4 && "-c:v"@[0] == '-' && "-c:v"@[1] == 'c' && "-c:v"@[2] == ':'
            && "-c:v"@[3] == 'v',
        "-c:a"@.len() == 4 && "-c:a"@[0] == '-' && "-c:a"@[1] == 'c' && "-c:a"@[2] == ':'
            && "-c:a"@[3] == 'a',
        "-c:s"@.len() == 4 && "-c:s"@[0] == '-' && "-c:s"@[1] == 'c' && "-c:s"@[2] == ':'
            && "-c:s"@[3] == 's',
        "-b:a"@.len() == 4 && "-b:a"@[0] == '-' && "-b:a"@[1] == 'b' && "-b:a"@[2] == ':',
        "-q:v"@.len() == 4 && "-q:v"@[0] == '-' && "-q:v"@[1] == 'q' && "-q:v"@[2] == ':',
        "-crf"@.len() == 4 && "-crf"@[0] == '-' && "-crf"@[1] == 'c' && "-crf"@[2] == 'r',
        "-map"@.len() == 4 && "-map"@[0] == '-' && "-map"@[1] == 'm',
        "-safe"@.len() == 5 && "-safe"@[0] == '-' && "-safe"@[1] == 's',
        "-loop"@.len() == 5 && "-loop"@[0] == '-' && "-loop"@[1] == 'l',
        "-preset"@.len() == 7 && "-preset"@[0] == '-',
        "-nostats"@.len() == 8 && "-nostats"@[0] == '-' && "-nostats"@[1] == 'n',
        "-quality"@.len() == 8 && "-quality"@[0] == '-' && "-quality"@[1] == 'q',
        "-progress"@.len() == 9 && "-progress"@[0] == '-' && "-progress"@[1] == 'p',
        "-movflags"@.len() == 9 && "-movflags"@[0] == '-' && "-movflags"@[1] == 'm',
        "-frames:v"@.len() == 9 && "-frames:v"@[0] == '-' && "-frames:v"@[1] == 'f',
        "-filter_complex"@.len() == 15 && "-filter_complex"@[0] == '-',
{
    reveal_strlit("-hide_banner");
    reveal_strlit("-y");
    reveal_strlit("-n");
    reveal_strlit("-i");
    reveal_strlit("-t");
    reveal_strlit("-c");
    reveal_strlit("-f");
    reveal_strlit("-ss");
    reveal_strlit("-to");
    reveal_strlit("-vf");
    reveal_strlit("-cq");
    reveal_strlit("-c:v");
    reveal_strlit("-c:a");
    reveal_strlit("-c:s");
    reveal_strlit("-b:a");
    reveal_strlit("-q:v");
    reveal_strlit("-crf");
    reveal_strlit("-map");
    reveal_strlit("-safe");
    reveal_strlit("-loop");
    reveal_strlit("-preset");
    reveal_strlit("-nostats");
    reveal_strlit("-quality");
    reveal_strlit("-progress");
    reveal_strlit("-movflags");
    reveal_strlit("-frames:v");
    reveal_strlit("-filter_complex");
}

} // verus!
