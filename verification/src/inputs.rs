//! Turning what the caller supplied into the list of inputs: splitting the
//! command line at the last `--` separator, and splitting a newline- or
//! NUL-delimited file-list byte stream into paths.

use vstd::prelude::*;

verus! {

/// Whether an argument is the `--` separator.
pub open spec fn is_sep(s: String) -> bool {
    s@ == "--"@
}

/// The index of the last `--` separator among the arguments, or `-1` if
/// there is none.
pub open spec fn last_sep(args: Seq<String>) -> int
    decreases args.len(),
{
    if args.len() == 0 {
        -1
    } else if is_sep(args.last()) {
        args.len() - 1
    } else {
        last_sep(args.drop_last())
    }
}

/// What `last_sep` returns: a separator position with none after it, or
/// `-1` when no argument is a separator.
pub proof fn lemma_last_sep(args: Seq<String>)
    ensures
        -1 <= last_sep(args) < args.len(),
        last_sep(args) >= 0 ==> is_sep(args[last_sep(args)]),
        forall|j: int| last_sep(args) < j < args.len() ==> !is_sep(#[trigger] args[j]),
        (exists|i: int| 0 <= i < args.len() && is_sep(#[trigger] args[i])) ==> last_sep(args)
            >= 0,
    decreases args.len(),
{
    if args.len() == 0 {
    } else if is_sep(args.last()) {
    } else {
        lemma_last_sep(args.drop_last());
        assert(forall|j: int|
            0 <= j < args.len() - 1 ==> #[trigger] args[j] == args.drop_last()[j]);
    }
}

/// Splits the argument list at the last `--` separator: everything before
/// it is the command's own argument list, everything after it the list of
/// input paths.
pub fn run_with_files_from_multi_args(cmd_args: &Vec<String>) -> (r: (Vec<String>, Vec<String>))
    requires
        exists|i: int| 0 <= i < cmd_args@.len() && is_sep(#[trigger] cmd_args@[i]),
    ensures
        ({
            let k = last_sep(cmd_args@);
            &&& r.0@.len() == k
            &&& forall|i: int| 0 <= i < k ==> #[trigger] r.0@[i]@ == cmd_args@[i]@
            &&& r.1@.len() == cmd_args@.len() - k - 1
            &&& forall|i: int| 0 <= i < r.1@.len() ==> #[trigger] r.1@[i]@ == cmd_args@[k + 1
                + i]@
        }),
{
    let n: usize = cmd_args.len();
    let dd: String = "--".to_owned();
    let mut k: usize = 0;
    let mut found: bool = false;
    let mut i: usize = 0;
    while i < n
        invariant
            n == cmd_args@.len(),
            dd@ == "--"@,
            0 <= i <= n,
            found ==> k < i && last_sep(cmd_args@.take(i as int)) == k,
            !found ==> last_sep(cmd_args@.take(i as int)) == -1,
        decreases n - i,
    {
        proof {
            assert(cmd_args@.take(i + 1).drop_last() =~= cmd_args@.take(i as int));
            assert(cmd_args@.take(i + 1).last() == cmd_args@[i as int]);
        }
        let s: &String = &cmd_args[i];
        if s.eq(&dd) {
            k = i;
            found = true;
        }
        i += 1;
    }
    proof {
        assert(cmd_args@.take(n as int) =~= cmd_args@);
        if !found {
            lemma_last_sep(cmd_args@);
            assert(false);
        }
    }
    let mut opts: Vec<String> = Vec::new();
    let mut files: Vec<String> = Vec::new();
    let mut j: usize = 0;
    while j < k
        invariant
            n == cmd_args@.len(),
            k < n,
            0 <= j <= k,
            opts@.len() == j,
            forall|t: int| 0 <= t < j ==> #[trigger] opts@[t]@ == cmd_args@[t]@,
        decreases k - j,
    {
        opts.push(cmd_args[j].clone());
        j += 1;
    }
    let mut j2: usize = k + 1;
    while j2 < n
        invariant
            n == cmd_args@.len(),
            k < n,
            k + 1 <= j2 <= n,
            files@.len() == j2 - k - 1,
            forall|t: int| 0 <= t < files@.len() ==> #[trigger] files@[t]@ == cmd_args@[k + 1
                + t]@,
        decreases n - j2,
    {
        files.push(cmd_args[j2].clone());
        j2 += 1;
    }
    (opts, files)
}

/// The position of the first occurrence of `d` in `data`, or the length
/// when `d` does not occur.
pub open spec fn find_byte(data: Seq<u8>, d: u8) -> int
    decreases data.len(),
{
    if data.len() == 0 {
        0
    } else if data.first() == d {
        0
    } else {
        1 + find_byte(data.drop_first(), d)
    }
}

/// What `find_byte` returns: the first position holding `d`, or the length.
pub proof fn lemma_find_byte(data: Seq<u8>, d: u8)
    ensures
        0 <= find_byte(data, d) <= data.len(),
        find_byte(data, d) < data.len() ==> data[find_byte(data, d)] == d,
        forall|j: int| 0 <= j < find_byte(data, d) ==> data[j] != d,
    decreases data.len(),
{
    if data.len() == 0 {
    } else if data.first() == d {
    } else {
        lemma_find_byte(data.drop_first(), d);
        assert forall|j: int| 0 <= j < find_byte(data, d) implies data[j] != d by {
            if j > 0 {
                assert(data[j] == data.drop_first()[j - 1]);
            }
        }
    }
}

/// If the first `m` bytes are not `d` and (when within range) byte `m` is,
/// the first occurrence is at `m`.
pub proof fn lemma_find_byte_is(data: Seq<u8>, d: u8, m: int)
    requires
        0 <= m <= data.len(),
        forall|j: int| 0 <= j < m ==> #[trigger] data[j] != d,
        m < data.len() ==> data[m] == d,
    ensures
        find_byte(data, d) == m,
    decreases m,
{
    if data.len() == 0 {
    } else if m == 0 {
    } else {
        assert(data.first() != d);
        assert(forall|j: int|
            0 <= j < m - 1 ==> #[trigger] data.drop_first()[j] == data[j + 1]);
        lemma_find_byte_is(data.drop_first(), d, m - 1);
    }
}

/// The chunks `data` splits into between occurrences of the delimiter `d`:
/// one chunk per delimiter-terminated segment, plus the final segment when
/// the stream does not end with the delimiter.  An empty stream has no
/// chunks.
pub open spec fn split_chunks(data: Seq<u8>, d: u8) -> Seq<Seq<u8>>
    decreases data.len(),
    via split_chunks_dec
{
    if data.len() == 0 {
        Seq::<Seq<u8>>::empty()
    } else {
        let i = find_byte(data, d);
        if i >= data.len() {
            seq![data]
        } else {
            seq![data.take(i)] + split_chunks(data.skip(i + 1), d)
        }
    }
}

#[via_fn]
proof fn split_chunks_dec(data: Seq<u8>, d: u8) {
    lemma_find_byte(data, d);
}

/// A line with its trailing carriage return removed, as reading lines of
/// text does.
pub open spec fn strip_cr(s: Seq<u8>) -> Seq<u8> {
    if s.len() > 0 && s.last() == 13 {
        s.drop_last()
    } else {
        s
    }
}

/// The paths a file-list byte stream denotes: split on NUL in
/// NUL-delimited mode, split on newline with any trailing carriage return
/// removed otherwise.
pub open spec fn file_list(data: Seq<u8>, null: bool) -> Seq<Seq<u8>> {
    if null {
        split_chunks(data, 0)
    } else {
        split_chunks(data, 10).map_values(|s: Seq<u8>| strip_cr(s))
    }
}

/// Splits a file-list byte stream into paths: NUL-delimited when `null`
/// is set, newline-delimited (tolerating CRLF) otherwise.
pub fn split_file_list(data: &Vec<u8>, null: bool) -> (r: Vec<Vec<u8>>)
    ensures
        r@.len() == file_list(data@, null).len(),
        forall|i: int| 0 <= i < r@.len() ==> #[trigger] r@[i]@ == file_list(data@, null)[i],
{
    let delim: u8 = if null {
        0
    } else {
        10
    };
    let n: usize = data.len();
    let mut out: Vec<Vec<u8>> = Vec::new();
    let ghost mut raw: Seq<Seq<u8>> = Seq::<Seq<u8>>::empty();
    let mut start: usize = 0;
    let mut i: usize = 0;
    proof {
        assert(data@.skip(0) =~= data@);
        assert(raw + split_chunks(data@, delim) =~= split_chunks(data@, delim));
    }
    while i < n
        invariant
            n == data@.len(),
            delim == (if null {
                0u8
            } else {
                10u8
            }),
            0 <= start <= i <= n,
            raw.len() == out@.len(),
            forall|t: int| 0 <= t < raw.len() ==> #[trigger] out@[t]@ == (if null {
                raw[t]
            } else {
                strip_cr(raw[t])
            }),
            split_chunks(data@, delim) =~= raw + split_chunks(data@.skip(start as int), delim),
            forall|j: int| start <= j < i ==> #[trigger] data@[j] != delim,
        decreases n - i,
    {
        if data[i] == delim {
            let chunk = copy_range(data, start, i);
            proof {
                let rest = data@.skip(start as int);
                assert(forall|j: int| 0 <= j < i - start ==> #[trigger] rest[j] == data@[j
                    + start]);
                lemma_find_byte_is(rest, delim, i - start);
                assert(rest.take(i - start) =~= data@.subrange(start as int, i as int));
                assert(rest.skip(i - start + 1) =~= data@.skip(i + 1));
                assert(split_chunks(data@, delim) =~= (raw + seq![
                    data@.subrange(start as int, i as int),
                ]) + split_chunks(data@.skip(i + 1), delim));
            }
            push_chunk(&mut out, chunk, null);
            proof {
                raw = raw + seq![data@.subrange(start as int, i as int)];
            }
            start = i + 1;
        }
        i += 1;
    }
    if start < n {
        let chunk = copy_range(data, start, n);
        proof {
            let rest = data@.skip(start as int);
            assert(forall|j: int| 0 <= j < n - start ==> #[trigger] rest[j] == data@[j + start]);
            lemma_find_byte_is(rest, delim, n - start);
            assert(rest =~= data@.subrange(start as int, n as int));
            assert(split_chunks(data@, delim) =~= raw + seq![
                data@.subrange(start as int, n as int),
            ]);
        }
        push_chunk(&mut out, chunk, null);
        proof {
            raw = raw + seq![data@.subrange(start as int, n as int)];
        }
    } else {
        proof {
            assert(data@.skip(start as int) =~= Seq::<u8>::empty());
            assert(split_chunks(data@, delim) =~= raw);
        }
    }
    proof {
        assert(split_chunks(data@, delim) =~= raw);
        if !null {
            assert(forall|t: int|
                0 <= t < raw.len() ==> #[trigger] file_list(data@, null)[t] == strip_cr(raw[t]));
        }
    }
    out
}

/// Copies `data[from..to]` into a fresh buffer.
fn copy_range(data: &Vec<u8>, from: usize, to: usize) -> (r: Vec<u8>)
    requires
        0 <= from <= to <= data@.len(),
    ensures
        r@ == data@.subrange(from as int, to as int),
{
    let mut r: Vec<u8> = Vec::new();
    let mut j: usize = from;
    while j < to
        invariant
            from <= j <= to <= data@.len(),
            r@ =~= data@.subrange(from as int, j as int),
        decreases to - j,
    {
        r.push(data[j]);
        proof {
            assert(r@ =~= data@.subrange(from as int, j + 1));
        }
        j += 1;
    }
    r
}

/// Appends one raw chunk to the output list, removing a trailing carriage
/// return in newline mode.
fn push_chunk(out: &mut Vec<Vec<u8>>, chunk: Vec<u8>, null: bool) -> (nothing: ())
    ensures
        final(out)@.len() == old(out)@.len() + 1,
        forall|t: int| 0 <= t < old(out)@.len() ==> #[trigger] final(out)@[t] == old(out)@[t],
        final(out)@.last()@ == (if null {
            chunk@
        } else {
            strip_cr(chunk@)
        }),
{
    let ghost chunk0 = chunk@;
    let mut chunk = chunk;
    if !null && chunk.len() > 0 {
        let lastb = chunk[chunk.len() - 1];
        if lastb == 13 {
            chunk.pop();
            proof {
                assert(chunk@ =~= strip_cr(chunk0));
            }
        }
    }
    out.push(chunk);
}

} // verus!
