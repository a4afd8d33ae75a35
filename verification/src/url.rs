//! The entry texts as they are kept in the fragment of a URL: joined by commas behind `#`.

use vstd::prelude::*;
use vstd::string::*;
use crate::entry::{FunctionEntry, EntryView, entry_views};

verus! {

/// The texts of a list of entries, in order.
pub open spec fn texts_of<F>(entries: Seq<EntryView<F>>) -> Seq<Seq<char>> {
    entries.map_values(|e: EntryView<F>| e.text)
}

/// Entries that hold the given texts and no function.
pub open spec fn unparsed_entries<F>(texts: Seq<Seq<char>>) -> Seq<EntryView<F>> {
    texts.map_values(|t: Seq<char>| EntryView::<F>::unparsed(t))
}

/// The texts one after another, a comma behind each.
pub open spec fn comma_ended(texts: Seq<Seq<char>>) -> Seq<char>
    decreases texts.len(),
{
    if texts.len() == 0 {
        Seq::empty()
    } else {
        comma_ended(texts.drop_last()) + texts.last() + seq![',']
    }
}

/// The fragment that keeps `texts`: `#`, then the texts with a comma between them. No
/// texts give no fragment at all.
pub open spec fn url_string(texts: Seq<Seq<char>>) -> Seq<char> {
    (seq!['#'] + comma_ended(texts)).drop_last()
}

/// What follows the last `#` of `s`, if `s` holds one.
pub open spec fn after_last_hash(s: Seq<char>) -> Option<Seq<char>>
    decreases s.len(),
{
    if s.len() == 0 {
        None
    } else if s.last() == '#' {
        Some(Seq::empty())
    } else {
        match after_last_hash(s.drop_last()) {
            Some(tail) => Some(tail.push(s.last())),
            None => None,
        }
    }
}

/// The pieces of `s` between its commas. There is one piece more than there are commas, so
/// a text without a comma is one piece, also when it is empty.
pub open spec fn comma_split(s: Seq<char>) -> Seq<Seq<char>>
    decreases s.len(),
{
    if s.len() == 0 {
        seq![Seq::empty()]
    } else {
        let before = comma_split(s.drop_last());
        if s.last() == ',' {
            before.push(Seq::empty())
        } else {
            before.drop_last().push(before.last().push(s.last()))
        }
    }
}

/// The entry texts that the address `href` keeps: the pieces of its fragment, and none
/// where it has no fragment or an empty one.
pub open spec fn url_texts(href: Seq<char>) -> Seq<Seq<char>> {
    match after_last_hash(href) {
        Some(fragment) => if fragment.len() == 0 {
            Seq::empty()
        } else {
            comma_split(fragment)
        },
        None => Seq::empty(),
    }
}

/// Writes the fragment that keeps `texts`.
pub fn url_string_from_texts(texts: &Vec<&str>) -> (info: String)
    ensures
        info@ == url_string(texts@.map_values(|t: &str| t@)),
{
    let mut info = String::new();
    info.push('#');
    let ghost all = texts@.map_values(|t: &str| t@);
    let mut n: usize = 0;
    while n < texts.len()
        invariant
            n <= texts.len(),
            all == texts@.map_values(|t: &str| t@),
            info@ == seq!['#'] + comma_ended(all.take(n as int)),
        decreases texts.len() - n,
    {
        info.append(texts[n]);
        info.push(',');
        proof {
            let done = all.take(n + 1);
            assert(done.drop_last() == all.take(n as int));
            assert(done.last() == texts@[n as int]@);
            assert(info@ == seq!['#'] + comma_ended(done));
        }
        n += 1;
    }
    assert(all.take(n as int) == all);
    info.pop();
    info
}

/// Writes the fragment that keeps the texts of `data`.
pub fn url_string_from_data<F>(data: &Vec<FunctionEntry<F>>) -> (info: String)
    ensures
        info@ == url_string(texts_of(entry_views(data@))),
{
    let mut texts: Vec<&str> = Vec::new();
    let mut n: usize = 0;
    while n < data.len()
        invariant
            n <= data.len(),
            texts@.len() == n,
            forall|i: int| 0 <= i < n ==> texts@[i]@ == data@[i].text@,
        decreases data.len() - n,
    {
        texts.push(data[n].text.as_str());
        n += 1;
    }
    assert(texts@.map_values(|t: &str| t@) =~= texts_of(entry_views(data@)));
    url_string_from_texts(&texts)
}

/// Reads the entry texts that the address `href` keeps and adds an entry for each to
/// `data`, in order. The entries have no function yet.
pub fn get_data_from_url<F>(href: &str, data: &mut Vec<FunctionEntry<F>>)
    ensures
        entry_views(final(data)@) == entry_views(old(data)@) + unparsed_entries::<F>(
            url_texts(href@),
        ),
{
    let start = data.len();
    let mut seen = false;
    let mut current = String::new();
    for c in it: href.chars()
        invariant
            it.seq() == href@,
            start == old(data)@.len(),
            seen <==> after_last_hash(href@.take(it.index())) is Some,
            !seen ==> data@ == old(data)@ && current@.len() == 0,
            seen ==> ({
                let pieces = comma_split(after_last_hash(href@.take(it.index()))->Some_0);
                &&& pieces.len() >= 1
                &&& current@ == pieces.last()
                &&& entry_views(data@) == entry_views(old(data)@) + unparsed_entries::<F>(
                    pieces.drop_last(),
                )
            }),
    {
        let ghost before = comma_split(after_last_hash(href@.take(it.index()))->Some_0);
        let ghost kept = entry_views(old(data)@);
        let ghost had = entry_views(data@);
        proof {
            assert(had.len() == data@.len());
            assert(forall|i: int| 0 <= i < kept.len() ==> had[i] == kept[i]);
            let done = href@.take(it.index() + 1);
            assert(done.drop_last() == href@.take(it.index()));
            assert(done.last() == c);
        }
        if c == '#' {
            seen = true;
            data.truncate(start);
            current = String::new();
            proof {
                let pieces = seq![Seq::<char>::empty()];
                assert(comma_split(Seq::<char>::empty()) == pieces);
                assert(after_last_hash(href@.take(it.index() + 1)) == Some(
                    Seq::<char>::empty(),
                ));
                assert(entry_views(data@) =~= kept);
                assert(kept =~= kept + unparsed_entries::<F>(pieces.drop_last()));
            }
        } else if seen {
            if c == ',' {
                data.push(FunctionEntry { text: current, func: None });
                current = String::new();
                proof {
                    let pieces = before.push(Seq::empty());
                    assert(after_last_hash(href@.take(it.index() + 1))->Some_0
                        == after_last_hash(href@.take(it.index()))->Some_0.push(c));
                    let tail = after_last_hash(href@.take(it.index()))->Some_0;
                    assert(tail.push(c).drop_last() == tail);
                    assert(comma_split(tail.push(c)) == pieces);
                    assert(pieces.drop_last() =~= before);
                    assert(before =~= before.drop_last().push(before.last()));
                    assert(entry_views(data@) =~= had.push(EntryView::unparsed(before.last())));
                    assert(entry_views(data@) =~= kept + unparsed_entries::<F>(before));
                }
            } else {
                current.push(c);
                proof {
                    let pieces = before.drop_last().push(before.last().push(c));
                    assert(after_last_hash(href@.take(it.index() + 1))->Some_0
                        == after_last_hash(href@.take(it.index()))->Some_0.push(c));
                    let tail = after_last_hash(href@.take(it.index()))->Some_0;
                    assert(tail.push(c).drop_last() == tail);
                    assert(comma_split(tail.push(c)) == pieces);
                    assert(pieces.drop_last() =~= before.drop_last());
                }
            }
        }
    }
    proof {
        assert(href@.take(href@.len() as int) == href@);
    }
    if seen {
        let ghost pieces = comma_split(after_last_hash(href@)->Some_0);
        let ghost had = entry_views(data@);
        proof {
            lemma_split_of_empty(after_last_hash(href@)->Some_0);
            assert(had.len() == data@.len());
            assert(had.len() == start + pieces.len() - 1);
        }
        if data.len() > start || !current.as_str().is_empty() {
            data.push(FunctionEntry { text: current, func: None });
            proof {
                assert(pieces =~= pieces.drop_last().push(pieces.last()));
                assert(entry_views(data@) =~= had.push(EntryView::unparsed(pieces.last())));
                assert(entry_views(data@) =~= entry_views(old(data)@) + unparsed_entries::<F>(
                    pieces,
                ));
            }
        } else {
            assert(entry_views(data@) =~= entry_views(old(data)@) + unparsed_entries::<F>(
                Seq::empty(),
            ));
        }
    } else {
        assert(entry_views(data@) =~= entry_views(old(data)@) + unparsed_entries::<F>(
            Seq::empty(),
        ));
    }
}

/// Only the empty text splits into one empty piece.
pub proof fn lemma_split_of_empty(s: Seq<char>)
    ensures
        comma_split(s).len() >= 1,
        (comma_split(s).len() == 1 && comma_split(s)[0].len() == 0) <==> s.len() == 0,
    decreases s.len(),
{
    if s.len() > 0 {
        lemma_split_of_empty(s.drop_last());
    }
}

/// The texts with a comma between each two.
pub open spec fn comma_joined(texts: Seq<Seq<char>>) -> Seq<char>
    decreases texts.len(),
{
    if texts.len() == 0 {
        Seq::empty()
    } else if texts.len() == 1 {
        texts[0]
    } else {
        comma_joined(texts.drop_last()) + seq![','] + texts.last()
    }
}

/// Whether no text holds a comma or a `#`, the two characters that a fragment gives a
/// meaning to.
pub open spec fn plain_texts(texts: Seq<Seq<char>>) -> bool {
    forall|i: int|
        0 <= i < texts.len() ==> !(#[trigger] texts[i]).contains(',') && !texts[i].contains('#')
}

/// The fragment of one text or more is `#` and the texts with a comma between each two.
pub proof fn lemma_url_string_joins(texts: Seq<Seq<char>>)
    requires
        texts.len() >= 1,
    ensures
        comma_ended(texts) == comma_joined(texts) + seq![','],
        url_string(texts) == seq!['#'] + comma_joined(texts),
    decreases texts.len(),
{
    if texts.len() == 1 {
        assert(texts.drop_last().len() == 0);
        assert(comma_ended(texts.drop_last()) == Seq::<char>::empty());
        assert(comma_ended(texts) =~= texts[0] + seq![',']);
    } else {
        lemma_url_string_joins(texts.drop_last());
        assert(comma_ended(texts) =~= comma_joined(texts) + seq![',']);
    }
    assert(url_string(texts) =~= seq!['#'] + comma_joined(texts));
}

/// What follows a `#` is found again where it holds no `#` itself.
pub proof fn lemma_after_hash(before: Seq<char>, tail: Seq<char>)
    requires
        !tail.contains('#'),
    ensures
        after_last_hash(before + seq!['#'] + tail) == Some(tail),
    decreases tail.len(),
{
    let whole = before + seq!['#'] + tail;
    if tail.len() == 0 {
        assert(whole.last() == '#');
        assert(tail =~= Seq::empty());
    } else {
        assert(tail.contains(tail.last()));
        assert(whole.last() == tail.last());
        assert(whole.drop_last() =~= before + seq!['#'] + tail.drop_last());
        assert(!tail.drop_last().contains('#')) by {
            if tail.drop_last().contains('#') {
                let i = choose|i: int| 0 <= i < tail.drop_last().len() && tail.drop_last()[i] == '#';
                assert(tail[i] == '#');
            }
        }
        lemma_after_hash(before, tail.drop_last());
        assert(tail.drop_last().push(tail.last()) =~= tail);
    }
}

/// A text without a comma joins the last piece of what stands before it.
pub proof fn lemma_split_append(s: Seq<char>, t: Seq<char>)
    requires
        !t.contains(','),
    ensures
        comma_split(s).len() >= 1,
        comma_split(s + t) == comma_split(s).drop_last().push(comma_split(s).last() + t),
    decreases t.len(),
{
    lemma_split_of_empty(s);
    let pieces = comma_split(s);
    if t.len() == 0 {
        assert(s + t =~= s);
        assert(pieces.last() + t =~= pieces.last());
        assert(pieces.drop_last().push(pieces.last()) =~= pieces);
    } else {
        assert(t.contains(t.last()));
        assert(!t.drop_last().contains(',')) by {
            if t.drop_last().contains(',') {
                let i = choose|i: int| 0 <= i < t.drop_last().len() && t.drop_last()[i] == ',';
                assert(t[i] == ',');
            }
        }
        lemma_split_append(s, t.drop_last());
        assert((s + t).drop_last() =~= s + t.drop_last());
        assert((s + t).last() == t.last());
        let before = comma_split(s + t.drop_last());
        assert(before.last().push(t.last()) =~= pieces.last() + t);
        assert(before.drop_last() =~= pieces.drop_last());
    }
}

/// Texts without a comma are found again when their joined form is split.
pub proof fn lemma_split_joined(texts: Seq<Seq<char>>)
    requires
        texts.len() >= 1,
        forall|i: int| 0 <= i < texts.len() ==> !(#[trigger] texts[i]).contains(','),
    ensures
        comma_split(comma_joined(texts)) == texts,
    decreases texts.len(),
{
    if texts.len() == 1 {
        lemma_split_append(Seq::empty(), texts[0]);
        assert(Seq::<char>::empty() + texts[0] =~= texts[0]);
        assert(comma_split(Seq::<char>::empty()) =~= seq![Seq::<char>::empty()]);
        assert(comma_split(texts[0]) =~= texts);
    } else {
        let front = texts.drop_last();
        lemma_split_joined(front);
        let head = comma_joined(front) + seq![','];
        assert(head.drop_last() =~= comma_joined(front));
        assert(head.last() == ',');
        assert(comma_split(head) == front.push(Seq::empty()));
        lemma_split_append(head, texts.last());
        assert(front.push(Seq::empty()).drop_last() =~= front);
        assert(Seq::<char>::empty() + texts.last() =~= texts.last());
        assert(front.push(texts.last()) =~= texts);
    }
}

/// The joined form of plain texts holds no `#`, and it is empty only for one empty text.
pub proof fn lemma_joined_plain(texts: Seq<Seq<char>>)
    requires
        texts.len() >= 1,
        plain_texts(texts),
    ensures
        !comma_joined(texts).contains('#'),
        comma_joined(texts).len() == 0 <==> texts.len() == 1 && texts[0].len() == 0,
    decreases texts.len(),
{
    if texts.len() > 1 {
        let front = texts.drop_last();
        assert forall|i: int| 0 <= i < front.len() implies !(#[trigger] front[i]).contains(',')
            && !front[i].contains('#') by {
            assert(front[i] == texts[i]);
        }
        lemma_joined_plain(front);
        let head = comma_joined(front);
        let whole = comma_joined(texts);
        assert(whole[head.len() as int] == ',');
        if whole.contains('#') {
            let i = choose|i: int| 0 <= i < whole.len() && whole[i] == '#';
            if i < head.len() {
                assert(head[i] == '#');
            } else if i > head.len() {
                assert(texts.last()[i - head.len() - 1] == '#');
            }
        }
    }
}

/// A fragment keeps plain texts as they are: what is read from the fragment written for
/// them are the same texts. One empty text alone is kept as no text at all.
pub proof fn lemma_url_round_trip(before: Seq<char>, texts: Seq<Seq<char>>)
    requires
        texts.len() >= 1,
        plain_texts(texts),
    ensures
        url_texts(before + url_string(texts)) == if texts.len() == 1 && texts[0].len() == 0 {
            Seq::empty()
        } else {
            texts
        },
{
    lemma_url_string_joins(texts);
    lemma_joined_plain(texts);
    lemma_after_hash(before, comma_joined(texts));
    assert(before + url_string(texts) =~= before + seq!['#'] + comma_joined(texts));
    lemma_split_joined(texts);
}

} // verus!
