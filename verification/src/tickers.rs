//! The set of tickers that the server knows, and the check of a request's
//! tickers against it.
use vstd::prelude::*;
use vstd::string::*;

use crate::error::{CommandError, CommandErrorView};
use crate::text::{split_on, split_str, trim, trim_str};

verus! {

/// A set of ticker names, without repetition.
pub struct TickerList {
    items: Vec<String>,
}

/// The texts of a sequence of strings.
pub open spec fn texts(v: Seq<String>) -> Seq<Seq<char>> {
    v.map_values(|s: String| s@)
}

/// The lines of `s` as `str::lines` yields them, up to whitespace at their
/// ends: the pieces between line feeds, without a last empty piece.
pub open spec fn lines(s: Seq<char>) -> Seq<Seq<char>> {
    let parts = split_on(s, '\n');
    if parts.len() > 0 && parts.last().len() == 0 {
        parts.drop_last()
    } else {
        parts
    }
}

/// The tickers named by a ticker file: each line, trimmed; blank lines
/// name none.
pub open spec fn tickers_of_text(s: Seq<char>) -> Set<Seq<char>> {
    lines(s).map_values(|l: Seq<char>| trim(l)).to_set().remove(Seq::<char>::empty())
}

/// The result of checking the requested tickers `req` against `known`:
/// the first one, in order, that `known` lacks is the error; else every
/// requested ticker, trimmed.
pub open spec fn ticker_check(req: Seq<Seq<char>>, known: Set<Seq<char>>) -> Result<
    Seq<Seq<char>>,
    CommandErrorView,
>
    decreases req.len(),
{
    if req.len() == 0 {
        Ok(Seq::empty())
    } else {
        match ticker_check(req.drop_last(), known) {
            Err(e) => Err(e),
            Ok(v) => if known.contains(req.last()) {
                Ok(v.push(trim(req.last())))
            } else {
                Err(CommandErrorView::TickerNotFound(req.last()))
            },
        }
    }
}

impl View for TickerList {
    type V = Set<Seq<char>>;

    closed spec fn view(&self) -> Set<Seq<char>> {
        texts(self.items@).to_set()
    }
}

impl TickerList {
    #[verifier::type_invariant]
    spec fn inv(self) -> bool {
        texts(self.items@).no_duplicates()
    }

    /// An empty set.
    pub fn new() -> (r: TickerList)
        ensures
            r@ == Set::<Seq<char>>::empty(),
    {
        let r = TickerList { items: Vec::new() };
        assert(texts(r.items@).to_set() =~= Set::<Seq<char>>::empty());
        r
    }

    /// The number of tickers.
    pub fn len(&self) -> (r: usize)
        ensures
            r == self@.len(),
    {
        proof {
            use_type_invariant(self);
            texts(self.items@).unique_seq_to_set();
        }
        self.items.len()
    }

    /// Whether `ticker` is in the set.
    pub fn contains(&self, ticker: &str) -> (r: bool)
        ensures
            r == self@.contains(ticker@),
    {
        let wanted = String::from_str(ticker);
        let n = self.items.len();
        let mut i: usize = 0;
        while i < n
            invariant
                n == self.items@.len(),
                wanted@ == ticker@,
                forall|j: int| 0 <= j < i ==> self.items@[j]@ != ticker@,
            decreases n - i,
        {
            if self.items[i] == wanted {
                assert(texts(self.items@)[i as int] == ticker@);
                return true;
            }
            i = i + 1;
        }
        proof {
            if texts(self.items@).contains(ticker@) {
                let j = choose|j: int|
                    0 <= j < texts(self.items@).len() && texts(self.items@)[j] == ticker@;
                assert(self.items@[j]@ == ticker@);
            }
        }
        false
    }

    /// Adds `ticker` to the set.
    pub fn insert(&mut self, ticker: &str)
        ensures
            final(self)@ == old(self)@.insert(ticker@),
    {
        proof {
            use_type_invariant(&*self);
        }
        if self.contains(ticker) {
            assert(old(self)@.insert(ticker@) =~= old(self)@);
            return;
        }
        let ghost before = texts(self.items@);
        let item = String::from_str(ticker);
        let mut items = Vec::new();
        std::mem::swap(&mut items, &mut self.items);
        items.push(item);
        assert(texts(items@) =~= before.push(ticker@));
        proof {
            before.lemma_push_to_set_commute(ticker@);
        }
        assert(texts(items@).no_duplicates()) by {
            assert forall|a: int, b: int|
                0 <= a < texts(items@).len() && 0 <= b < texts(items@).len() && a != b implies texts(
                items@,
            )[a] != texts(items@)[b] by {
                if a < before.len() && b < before.len() {
                } else if a == before.len() {
                    assert(!before.contains(ticker@));
                    assert(before[b] == texts(items@)[b]);
                } else {
                    assert(!before.contains(ticker@));
                    assert(before[a] == texts(items@)[a]);
                }
            }
        }
        self.items = items;
    }

    /// The tickers of a ticker file with the content `text`: one per line,
    /// whitespace at the ends of each line removed, blank lines skipped.
    pub fn from_text(text: &str) -> (r: TickerList)
        ensures
            r@ == tickers_of_text(text@),
    {
        let pieces = split_str(text, '\n');
        let ghost parts = split_on(text@, '\n');
        let ghost ls = lines(text@);
        proof {
            crate::text::lemma_split_on_nonempty(text@, '\n');
        }
        let mut count = pieces.len();
        if pieces[count - 1].unicode_len() == 0 {
            count = count - 1;
        }
        assert(pieces@.map_values(|p: &str| p@) == parts);
        assert(ls.len() == count);
        let mut list = TickerList::new();
        let mut i: usize = 0;
        assert(ls.take(0).map_values(|l: Seq<char>| trim(l)).to_set().remove(
            Seq::<char>::empty(),
        ) =~= Set::<Seq<char>>::empty());
        while i < count
            invariant
                count <= pieces@.len(),
                pieces@.map_values(|p: &str| p@) == parts,
                ls == lines(text@),
                ls.len() == count,
                forall|j: int| 0 <= j < count ==> ls[j] == parts[j],
                list@ == ls.take(i as int).map_values(|l: Seq<char>| trim(l)).to_set().remove(
                    Seq::<char>::empty(),
                ),
                i <= count,
            decreases count - i,
        {
            let line = trim_str(pieces[i]);
            assert(pieces@[i as int]@ == parts[i as int]);
            let ghost before = list@;
            assert(!before.contains(Seq::<char>::empty()));
            assert(line@ == trim(ls[i as int]));
            if line.unicode_len() > 0 {
                list.insert(line);
                assert(line@ != Seq::<char>::empty());
            } else {
                assert(line@ =~= Seq::<char>::empty());
            }
            assert(list@ =~= before.insert(trim(ls[i as int])).remove(Seq::<char>::empty()));
            assert(ls.take(i + 1).map_values(|l: Seq<char>| trim(l)) =~= ls.take(
                i as int,
            ).map_values(|l: Seq<char>| trim(l)).push(trim(ls[i as int])));
            proof {
                ls.take(i as int).map_values(|l: Seq<char>| trim(l)).lemma_push_to_set_commute(
                    trim(ls[i as int]),
                );
            }
            i = i + 1;
        }
        assert(ls.take(count as int) =~= ls);
        list
    }
}

/// Checks that every requested ticker is known: the first one, in order,
/// that `known` lacks is reported; otherwise the requested tickers come
/// back trimmed. A ticker is looked up as it was requested, before any
/// trimming.
pub fn check_tickers(req_tickers: Vec<&str>, known: &TickerList) -> (r: Result<
    Vec<String>,
    CommandError,
>)
    ensures
        match r {
            Ok(v) => ticker_check(req_tickers@.map_values(|t: &str| t@), known@) == Ok::<
                Seq<Seq<char>>,
                CommandErrorView,
            >(texts(v@)),
            Err(e) => ticker_check(req_tickers@.map_values(|t: &str| t@), known@) == Err::<
                Seq<Seq<char>>,
                CommandErrorView,
            >(e@),
        },
{
    let ghost req = req_tickers@.map_values(|t: &str| t@);
    let mut tickers: Vec<String> = Vec::new();
    let n = req_tickers.len();
    let mut i: usize = 0;
    assert(req.take(0) =~= Seq::<Seq<char>>::empty());
    assert(texts(tickers@) =~= Seq::<Seq<char>>::empty());
    while i < n
        invariant
            n == req_tickers@.len(),
            req == req_tickers@.map_values(|t: &str| t@),
            i <= n,
            ticker_check(req.take(i as int), known@) == Ok::<Seq<Seq<char>>, CommandErrorView>(
                texts(tickers@),
            ),
        decreases n - i,
    {
        let ticker = req_tickers[i];
        let ghost next = req.take(i + 1);
        assert(next.drop_last() =~= req.take(i as int));
        assert(next.last() == ticker@);
        if !known.contains(ticker) {
            proof {
                lemma_ticker_check_prefix_err(req, i + 1, known@);
            }
            return Err(CommandError::TickerNotFound(String::from_str(ticker)));
        }
        let ghost before = texts(tickers@);
        tickers.push(String::from_str(trim_str(ticker)));
        assert(texts(tickers@) =~= before.push(trim(ticker@)));
        i = i + 1;
    }
    assert(req.take(n as int) =~= req);
    Ok(tickers)
}

/// The check accepts a request exactly when every requested ticker is
/// known, and then gives each of them back trimmed, in order; otherwise it
/// names the first requested ticker that is not known.
pub proof fn law_ticker_check(req: Seq<Seq<char>>, known: Set<Seq<char>>)
    ensures
        ticker_check(req, known) is Ok <==> forall|i: int|
            0 <= i < req.len() ==> known.contains(#[trigger] req[i]),
        ticker_check(req, known) matches Ok(v) ==> v.len() == req.len() && forall|i: int|
            0 <= i < req.len() ==> v[i] == trim(#[trigger] req[i]),
        ticker_check(req, known) matches Err(e) ==> exists|j: int|
            0 <= j < req.len() && !known.contains(#[trigger] req[j]) && (forall|i: int|
                0 <= i < j ==> known.contains(req[i])) && e == CommandErrorView::TickerNotFound(
                req[j],
            ),
    decreases req.len(),
{
    if req.len() > 0 {
        let init = req.drop_last();
        law_ticker_check(init, known);
        let last = req.len() - 1;
        assert(req[last] == req.last());
        assert forall|i: int| 0 <= i < init.len() implies init[i] == req[i] by {}
        match ticker_check(init, known) {
            Err(e) => {
                let j = choose|j: int|
                    0 <= j < init.len() && !known.contains(#[trigger] init[j]) && (forall|i: int|
                        0 <= i < j ==> known.contains(init[i])) && e
                        == CommandErrorView::TickerNotFound(init[j]);
                assert(!known.contains(req[j]));
                assert(forall|i: int| 0 <= i < j ==> known.contains(req[i])) by {
                    assert forall|i: int| 0 <= i < j implies known.contains(req[i]) by {
                        assert(init[i] == req[i]);
                    }
                }
            },
            Ok(v) => {
                if !known.contains(req.last()) {
                    assert(forall|i: int| 0 <= i < last ==> known.contains(req[i])) by {
                        assert forall|i: int| 0 <= i < last implies known.contains(req[i]) by {
                            assert(init[i] == req[i]);
                            assert(known.contains(init[i]));
                        }
                    }
                } else {
                    assert forall|i: int| 0 <= i < req.len() implies known.contains(
                        #[trigger] req[i],
                    ) by {
                        if i < last {
                            assert(init[i] == req[i]);
                            assert(known.contains(init[i]));
                        }
                    }
                    let w = v.push(trim(req.last()));
                    assert forall|i: int| 0 <= i < req.len() implies w[i] == trim(
                        #[trigger] req[i],
                    ) by {
                        if i < last {
                            assert(init[i] == req[i]);
                            assert(v[i] == trim(init[i]));
                        }
                    }
                }
            },
        }
    }
}

/// Once a prefix of the request fails, the whole request fails the same way.
proof fn lemma_ticker_check_prefix_err(req: Seq<Seq<char>>, k: int, known: Set<Seq<char>>)
    requires
        0 <= k <= req.len(),
        ticker_check(req.take(k), known) is Err,
    ensures
        ticker_check(req, known) == ticker_check(req.take(k), known),
    decreases req.len() - k,
{
    if k == req.len() {
        assert(req.take(k) =~= req);
    } else {
        let e = req.take(req.len() - 1);
        assert(e =~= req.drop_last());
        assert(e.take(k) =~= req.take(k));
        lemma_ticker_check_prefix_err(e, k, known);
    }
}

/// The tickers named by a sequence of pieces of a ticker file: each piece,
/// trimmed, unless it is blank.
spec fn piece_tickers(p: Seq<Seq<char>>) -> Set<Seq<char>> {
    p.map_values(|l: Seq<char>| trim(l)).to_set().remove(Seq::<char>::empty())
}

proof fn lemma_trim_empty()
    ensures
        trim(Seq::<char>::empty()) == Seq::<char>::empty(),
{
    assert(crate::text::trim_start(Seq::<char>::empty()) == Seq::<char>::empty());
    assert(crate::text::trim_end(Seq::<char>::empty()) == Seq::<char>::empty());
}

/// An empty last piece names no ticker.
proof fn lemma_tickers_by_pieces(s: Seq<char>)
    ensures
        tickers_of_text(s) == piece_tickers(split_on(s, '\n')),
{
    let parts = split_on(s, '\n');
    crate::text::lemma_split_on_nonempty(s, '\n');
    if parts.last().len() == 0 {
        lemma_trim_empty();
        let init = parts.drop_last();
        assert(parts.last() =~= Seq::<char>::empty());
        assert(parts.map_values(|l: Seq<char>| trim(l)) =~= init.map_values(
            |l: Seq<char>| trim(l),
        ).push(Seq::<char>::empty()));
        init.map_values(|l: Seq<char>| trim(l)).lemma_push_to_set_commute(Seq::<char>::empty());
        assert(piece_tickers(parts) =~= piece_tickers(init));
    }
}

proof fn lemma_piece_tickers_concat(p: Seq<Seq<char>>, q: Seq<Seq<char>>)
    ensures
        piece_tickers(p + q) == piece_tickers(p).union(piece_tickers(q)),
{
    let fp = p.map_values(|l: Seq<char>| trim(l));
    let fq = q.map_values(|l: Seq<char>| trim(l));
    let f = (p + q).map_values(|l: Seq<char>| trim(l));
    assert(f =~= fp + fq);
    assert forall|t: Seq<char>| f.to_set().contains(t) <==> fp.to_set().contains(t)
        || fq.to_set().contains(t) by {
        if f.to_set().contains(t) {
            let i = choose|i: int| 0 <= i < f.len() && f[i] == t;
            if i < fp.len() {
                assert(fp[i] == t);
            } else {
                assert(fq[i - fp.len()] == t);
            }
        }
        if fp.to_set().contains(t) {
            let i = choose|i: int| 0 <= i < fp.len() && fp[i] == t;
            assert(f[i] == t);
        }
        if fq.to_set().contains(t) {
            let i = choose|i: int| 0 <= i < fq.len() && fq[i] == t;
            assert(f[i + fp.len()] == t);
        }
    }
    assert(piece_tickers(p + q) =~= piece_tickers(p).union(piece_tickers(q)));
}

/// A ticker file of one line, without a line feed, names that line,
/// trimmed, unless the line is blank.
pub proof fn law_tickers_of_one_line(s: Seq<char>)
    requires
        !s.contains('\n'),
    ensures
        tickers_of_text(s) == if trim(s).len() == 0 {
            Set::<Seq<char>>::empty()
        } else {
            set![trim(s)]
        },
{
    crate::text::lemma_split_on_no_sep(s, '\n');
    lemma_tickers_by_pieces(s);
    let f = seq![s].map_values(|l: Seq<char>| trim(l));
    assert(f =~= seq![trim(s)]);
    assert(f.to_set() =~= set![trim(s)]) by {
        assert(f[0] == trim(s));
    }
    if trim(s).len() == 0 {
        assert(trim(s) =~= Seq::<char>::empty());
        assert(piece_tickers(seq![s]) =~= Set::<Seq<char>>::empty());
    } else {
        assert(piece_tickers(seq![s]) =~= set![trim(s)]);
    }
}

/// Joining two ticker files with a line feed between them names exactly
/// the tickers of the one and of the other: every line counts, the last one
/// too, with or without a line feed after it.
pub proof fn law_tickers_of_joined_lines(x: Seq<char>, y: Seq<char>)
    ensures
        tickers_of_text(x + seq!['\n'] + y) == tickers_of_text(x).union(tickers_of_text(y)),
{
    crate::text::lemma_split_on_concat(x, '\n', y);
    lemma_tickers_by_pieces(x + seq!['\n'] + y);
    lemma_tickers_by_pieces(x);
    lemma_tickers_by_pieces(y);
    lemma_piece_tickers_concat(split_on(x, '\n'), split_on(y, '\n'));
}

/// A ticker on the last line of a ticker file is known, whether or not a
/// line feed ends the file.
pub proof fn law_last_line_is_kept(s: Seq<char>, t: Seq<char>)
    requires
        !t.contains('\n'),
        trim(t) == t,
        t.len() > 0,
    ensures
        tickers_of_text(s + seq!['\n'] + t).contains(t),
        tickers_of_text(s + seq!['\n'] + t + seq!['\n']).contains(t),
        tickers_of_text(t).contains(t),
{
    law_tickers_of_joined_lines(s, t);
    law_tickers_of_one_line(t);
    law_tickers_of_joined_lines(s + seq!['\n'] + t, Seq::<char>::empty());
    law_tickers_of_one_line(Seq::<char>::empty());
    lemma_trim_empty();
    assert(s + seq!['\n'] + t + seq!['\n'] =~= s + seq!['\n'] + t + seq!['\n'] + Seq::<char>::empty());
}

} // verus!
