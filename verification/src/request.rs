//! Reading the editor's requests: the words of a request, each written in
//! single quotes the way a POSIX shell quotes (a quote inside as `'\''`),
//! or with backslashes, and ended by a blank; and the buffer contents that
//! follow some requests, a given number of lines long.

use vstd::prelude::*;

verus! {

/// The blank that ends a word.
pub const BLANK: u8 = 32;

/// The single quote.
pub const QUOTE: u8 = 39;

/// The backslash.
pub const BACKSLASH: u8 = 92;

/// The line feed.
pub const NEWLINE: u8 = 10;

// ---------------------------------------------------------------------------
// Words

/// Where a reader is within a word: just after a backslash, inside quotes,
/// and what the word holds so far.
pub struct Lexer {
    pub escaped: bool,
    pub quoted: bool,
    pub word: Seq<u8>,
}

/// Before any byte of a word.
pub open spec fn fresh_lexer() -> Lexer {
    Lexer { escaped: false, quoted: false, word: Seq::empty() }
}

/// What reading from an offset on gives: a whole word and the offset after
/// its blank; the point reached when the input runs out first; or a byte
/// that cannot stand where it is (outside quotes, only a quote, a backslash
/// or the blank can), with its offset.
pub enum Scan {
    Word { word: Seq<u8>, next: int },
    More { lexer: Lexer },
    Unexpected { offset: int, byte: u8 },
}

/// Reads `input` from offset `i` on, from the point `lx`: a byte after a
/// backslash is taken as it is; inside quotes every byte but the closing
/// quote is taken; outside, a quote opens quotes, a backslash escapes the
/// next byte, and the blank ends the word.
pub open spec fn scan(lx: Lexer, input: Seq<u8>, i: int) -> Scan
    decreases input.len() - i,
{
    if i < 0 || i >= input.len() {
        Scan::More { lexer: lx }
    } else {
        let c = input[i];
        if lx.escaped {
            scan(Lexer { escaped: false, quoted: lx.quoted, word: lx.word.push(c) }, input, i + 1)
        } else if lx.quoted {
            if c == QUOTE {
                scan(Lexer { escaped: false, quoted: false, word: lx.word }, input, i + 1)
            } else {
                scan(Lexer { escaped: false, quoted: true, word: lx.word.push(c) }, input, i + 1)
            }
        } else if c == BLANK {
            Scan::Word { word: lx.word, next: i + 1 }
        } else if c == QUOTE {
            scan(Lexer { escaped: false, quoted: true, word: lx.word }, input, i + 1)
        } else if c == BACKSLASH {
            scan(Lexer { escaped: true, quoted: false, word: lx.word }, input, i + 1)
        } else {
            Scan::Unexpected { offset: i, byte: c }
        }
    }
}

/// What one call of `TokenReader::feed` gives.
pub enum Feed {
    /// A whole word, and the offset just after its blank.
    Token { token: Vec<u8>, next_offset: usize },
    /// The input ran out within the word: feed the reader more.
    NeedInput,
    /// A byte that cannot stand where it is, at that offset.
    Unexpected { offset: usize, byte: u8 },
}

/// Reads one word of a request at a time, from input that may come in
/// pieces.
pub struct TokenReader {
    escaped: bool,
    quoted: bool,
    output: Vec<u8>,
}

impl View for TokenReader {
    type V = Lexer;

    closed spec fn view(&self) -> Lexer {
        Lexer { escaped: self.escaped, quoted: self.quoted, word: self.output@ }
    }
}

impl TokenReader {
    /// A reader before any word.
    pub fn new() -> (res: TokenReader)
        ensures
            res@ == fresh_lexer(),
    {
        let r = TokenReader { escaped: false, quoted: false, output: Vec::new() };
        assert(r@.word =~= Seq::<u8>::empty());
        r
    }

    /// Reads `input` from `offset` on, until a word ends, the input runs
    /// out, or a byte cannot stand where it is; see `scan`. After a word,
    /// or a byte out of place, the reader starts afresh; when the input runs
    /// out, it keeps its point for the next piece.
    pub fn feed(&mut self, input: &Vec<u8>, offset: usize) -> (res: Feed)
        requires
            offset <= input.len(),
        ensures
            match scan(old(self)@, input@, offset as int) {
                Scan::Word { word, next } => res matches Feed::Token { token, next_offset } && token@ == word
                    && next_offset == next && final(self)@ == fresh_lexer(),
                Scan::More { lexer } => res is NeedInput && final(self)@ == lexer,
                Scan::Unexpected { offset: at, byte } => res == (Feed::Unexpected { offset: at as usize, byte })
                    && final(self)@ == fresh_lexer(),
            },
    {
        let n = input.len();
        let mut i = offset;
        while i < n
            invariant
                offset <= i <= n,
                n == input.len(),
                scan(self@, input@, i as int) == scan(old(self)@, input@, offset as int),
            decreases n - i,
        {
            let c = input[i];
            if self.escaped {
                self.output.push(c);
                self.escaped = false;
            } else if self.quoted {
                if c == QUOTE {
                    self.quoted = false;
                } else {
                    self.output.push(c);
                }
            } else if c == BLANK {
                let mut token: Vec<u8> = Vec::new();
                std::mem::swap(&mut token, &mut self.output);
                proof {
                    assert(self.output@ =~= Seq::<u8>::empty());
                }
                return Feed::Token { token, next_offset: i + 1 };
            } else if c == QUOTE {
                self.quoted = true;
            } else if c == BACKSLASH {
                self.escaped = true;
            } else {
                self.output = Vec::new();
                proof {
                    assert(self.output@ =~= Seq::<u8>::empty());
                }
                return Feed::Unexpected { offset: i, byte: c };
            }
            i = i + 1;
        }
        Feed::NeedInput
    }
}


/// A scan of input that starts `k` bytes further on.
pub open spec fn shifted(r: Scan, k: int) -> Scan {
    match r {
        Scan::Word { word, next } => Scan::Word { word, next: next + k },
        Scan::More { lexer } => Scan::More { lexer },
        Scan::Unexpected { offset, byte } => Scan::Unexpected { offset: offset + k, byte },
    }
}

/// Reading the second of two joined pieces is reading it alone, `a.len()`
/// bytes further on.
proof fn lemma_scan_offset(lx: Lexer, a: Seq<u8>, b: Seq<u8>, j: int)
    requires
        0 <= j <= b.len(),
    ensures
        scan(lx, a + b, a.len() + j) == shifted(scan(lx, b, j), a.len() as int),
    decreases b.len() - j,
{
    if j < b.len() {
        assert((a + b)[a.len() + j] == b[j]);
        let c = b[j];
        if lx.escaped {
            lemma_scan_offset(Lexer { escaped: false, quoted: lx.quoted, word: lx.word.push(c) }, a, b, j + 1);
        } else if lx.quoted {
            if c == QUOTE {
                lemma_scan_offset(Lexer { escaped: false, quoted: false, word: lx.word }, a, b, j + 1);
            } else {
                lemma_scan_offset(Lexer { escaped: false, quoted: true, word: lx.word.push(c) }, a, b, j + 1);
            }
        } else if c == QUOTE {
            lemma_scan_offset(Lexer { escaped: false, quoted: true, word: lx.word }, a, b, j + 1);
        } else if c == BACKSLASH {
            lemma_scan_offset(Lexer { escaped: true, quoted: false, word: lx.word }, a, b, j + 1);
        }
    }
}

/// Input may come in pieces: reading two pieces one after the other, the
/// second from the point where the first ran out, gives what reading them
/// joined gives (offsets counted in the joined input).
pub proof fn lemma_scan_pieces(lx: Lexer, a: Seq<u8>, b: Seq<u8>, i: int)
    requires
        0 <= i <= a.len(),
    ensures
        scan(lx, a + b, i) == (match scan(lx, a, i) {
            Scan::More { lexer } => shifted(scan(lexer, b, 0), a.len() as int),
            other => other,
        }),
    decreases a.len() - i,
{
    if i == a.len() {
        lemma_scan_offset(lx, a, b, 0);
    } else {
        assert((a + b)[i] == a[i]);
        let c = a[i];
        if lx.escaped {
            lemma_scan_pieces(Lexer { escaped: false, quoted: lx.quoted, word: lx.word.push(c) }, a, b, i + 1);
        } else if lx.quoted {
            if c == QUOTE {
                lemma_scan_pieces(Lexer { escaped: false, quoted: false, word: lx.word }, a, b, i + 1);
            } else {
                lemma_scan_pieces(Lexer { escaped: false, quoted: true, word: lx.word.push(c) }, a, b, i + 1);
            }
        } else if c == QUOTE {
            lemma_scan_pieces(Lexer { escaped: false, quoted: true, word: lx.word }, a, b, i + 1);
        } else if c == BACKSLASH {
            lemma_scan_pieces(Lexer { escaped: true, quoted: false, word: lx.word }, a, b, i + 1);
        }
    }
}

/// The inside of a word in single quotes: every quote written `'\''`
/// (closing the quotes, a backslashed quote, opening them again).
pub open spec fn quoted_body(s: Seq<u8>) -> Seq<u8>
    decreases s.len(),
{
    if s.len() == 0 {
        Seq::empty()
    } else {
        (if s[0] == QUOTE {
            seq![QUOTE, BACKSLASH, QUOTE, QUOTE]
        } else {
            seq![s[0]]
        }) + quoted_body(s.drop_first())
    }
}

/// A word in single quotes, as a POSIX shell quotes it.
pub open spec fn shell_quoted(s: Seq<u8>) -> Seq<u8> {
    seq![QUOTE] + quoted_body(s) + seq![QUOTE]
}

/// Inside quotes, the quoted body of `s` reads as `s`.
proof fn lemma_quoted_body_reads(s: Seq<u8>, w: Seq<u8>, x: Seq<u8>, i: int)
    requires
        0 <= i,
        i + quoted_body(s).len() <= x.len(),
        x.subrange(i, i + quoted_body(s).len()) == quoted_body(s),
    ensures
        scan(Lexer { escaped: false, quoted: true, word: w }, x, i) == scan(
            Lexer { escaped: false, quoted: true, word: w + s },
            x,
            i + quoted_body(s).len(),
        ),
    decreases s.len(),
{
    if s.len() == 0 {
        assert(w + s =~= w);
    } else {
        let rest = s.drop_first();
        let qb = quoted_body(s);
        let head = if s[0] == QUOTE { seq![QUOTE, BACKSLASH, QUOTE, QUOTE] } else { seq![s[0]] };
        assert(qb == head + quoted_body(rest));
        let k = head.len();
        assert forall|t: int| 0 <= t < qb.len() implies x[i + t] == qb[t] by {
            assert(x.subrange(i, i + qb.len())[t] == x[i + t]);
        }
        assert(x.subrange(i + k, i + k + quoted_body(rest).len()) =~= quoted_body(rest)) by {
            assert forall|t: int| 0 <= t < quoted_body(rest).len() implies x.subrange(
                i + k,
                i + k + quoted_body(rest).len(),
            )[t] == quoted_body(rest)[t] by {
                assert(qb[k + t] == quoted_body(rest)[t]);
                assert(x[i + (k + t)] == qb[k + t]);
            }
        }
        if s[0] == QUOTE {
            assert(x[i] == QUOTE && x[i + 1] == BACKSLASH && x[i + 2] == QUOTE && x[i + 3] == QUOTE) by {
                assert(qb[0] == QUOTE && qb[1] == BACKSLASH && qb[2] == QUOTE && qb[3] == QUOTE);
            }
            let w1 = w.push(QUOTE);
            assert(scan(Lexer { escaped: false, quoted: true, word: w }, x, i) == scan(
                Lexer { escaped: false, quoted: true, word: w1 },
                x,
                i + 4,
            )) by {
                assert(scan(Lexer { escaped: false, quoted: true, word: w }, x, i) == scan(
                    Lexer { escaped: false, quoted: false, word: w },
                    x,
                    i + 1,
                ));
                assert(scan(Lexer { escaped: false, quoted: false, word: w }, x, i + 1) == scan(
                    Lexer { escaped: true, quoted: false, word: w },
                    x,
                    i + 2,
                ));
                assert(scan(Lexer { escaped: true, quoted: false, word: w }, x, i + 2) == scan(
                    Lexer { escaped: false, quoted: false, word: w1 },
                    x,
                    i + 3,
                ));
            }
            lemma_quoted_body_reads(rest, w1, x, i + 4);
            assert(w1 + rest =~= w + s);
        } else {
            assert(x[i] == s[0]) by {
                assert(qb[0] == s[0]);
            }
            let w1 = w.push(s[0]);
            lemma_quoted_body_reads(rest, w1, x, i + 1);
            assert(w1 + rest =~= w + s);
        }
    }
}

/// What a shell writes reads back: a word in single quotes, followed by the
/// blank, reads as that word, whatever follows it.
pub proof fn lemma_shell_quoted_reads_back(s: Seq<u8>, rest: Seq<u8>)
    ensures
        scan(fresh_lexer(), shell_quoted(s) + seq![BLANK] + rest, 0) == (Scan::Word {
            word: s,
            next: shell_quoted(s).len() + 1int,
        }),
{
    let qb = quoted_body(s);
    let x = shell_quoted(s) + seq![BLANK] + rest;
    let n = qb.len() as int;
    assert(x[0] == QUOTE);
    assert(x[n + 1] == QUOTE);
    assert(x[n + 2] == BLANK);
    assert(x.subrange(1, 1 + n) =~= qb);
    lemma_quoted_body_reads(s, Seq::empty(), x, 1);
    assert(Seq::<u8>::empty() + s =~= s);
    assert(scan(fresh_lexer(), x, 0) == scan(Lexer { escaped: false, quoted: true, word: Seq::empty() }, x, 1));
    assert(scan(Lexer { escaped: false, quoted: true, word: s }, x, n + 1) == scan(
        Lexer { escaped: false, quoted: false, word: s },
        x,
        n + 2,
    ));
}


// ---------------------------------------------------------------------------
// Buffer contents

/// How many line feeds the bytes hold.
pub open spec fn newlines(s: Seq<u8>) -> nat
    decreases s.len(),
{
    if s.len() == 0 {
        0
    } else {
        newlines(s.drop_last()) + (if s.last() == NEWLINE { 1nat } else { 0nat })
    }
}

/// How many line feeds the bytes hold; see `newlines`.
pub fn count_newlines(bytes: &Vec<u8>) -> (res: usize)
    ensures
        res == newlines(bytes@),
{
    let n = bytes.len();
    let mut count: usize = 0;
    let mut i: usize = 0;
    while i < n
        invariant
            i <= n,
            n == bytes.len(),
            count == newlines(bytes@.take(i as int)),
            count <= i,
        decreases n - i,
    {
        assert(bytes@.take(i + 1).drop_last() =~= bytes@.take(i as int));
        if bytes[i] == NEWLINE {
            count = count + 1;
        }
        i = i + 1;
    }
    assert(bytes@.take(n as int) =~= bytes@);
    count
}

/// Splits off the first `lines` lines of buffered bytes (each ended by a
/// line feed), leaving what follows them.
pub fn split_buffer_lines(buffer: &Vec<u8>, lines: usize) -> (res: (Vec<u8>, Vec<u8>))
    requires
        1 <= lines <= newlines(buffer@),
    ensures
        res.0@ + res.1@ == buffer@,
        newlines(res.0@) == lines,
        res.0@.len() > 0 && res.0@.last() == NEWLINE,
{
    let n = buffer.len();
    let mut head: Vec<u8> = Vec::new();
    let mut count: usize = 0;
    let mut i: usize = 0;
    while count < lines
        invariant
            i <= n,
            n == buffer.len(),
            lines <= newlines(buffer@),
            head@ == buffer@.take(i as int),
            count == newlines(head@),
            count <= lines,
            count == lines ==> i > 0 && head@.last() == NEWLINE,
        decreases n - i,
    {
        if i == n {
            assert(buffer@.take(n as int) =~= buffer@);
            assert(false);
        }
        let c = buffer[i];
        head.push(c);
        assert(buffer@.take(i + 1) =~= buffer@.take(i as int).push(c));
        assert(head@.drop_last() =~= buffer@.take(i as int));
        if c == NEWLINE {
            count = count + 1;
        }
        i = i + 1;
    }
    let mut tail: Vec<u8> = Vec::new();
    let mut j: usize = i;
    while j < n
        invariant
            i <= j <= n,
            n == buffer.len(),
            tail@ == buffer@.subrange(i as int, j as int),
        decreases n - j,
    {
        tail.push(buffer[j]);
        assert(buffer@.subrange(i as int, j + 1) =~= buffer@.subrange(i as int, j as int).push(buffer@[j as int]));
        j = j + 1;
    }
    assert(head@ + tail@ =~= buffer@);
    (head, tail)
}

} // verus!
