//! Translation requests: splitting a source text into separately
//! translatable pieces and phrasing each piece as a prompt.

use vstd::prelude::*;

use crate::{Prompt, Ask};
use crate::text::{str_views, trim_spec, trim_str};

verus! {

/// The language a text is translated into.
#[derive(Debug, Clone, Copy, PartialEq, Eq, Structural)]
pub enum TargetLang {
    English,
    Japanese,
}

pub open spec fn lang_name(l: TargetLang) -> Seq<char> {
    match l {
        TargetLang::English => "en"@,
        TargetLang::Japanese => "ja"@,
    }
}

impl TargetLang {
    pub fn to_str(&self) -> (r: &'static str)
        ensures
            r@ == lang_name(*self),
    {
        match self {
            TargetLang::English => "en",
            TargetLang::Japanese => "ja",
        }
    }
}

/// One piece of the source text, to be translated on its own.
#[derive(Debug, Clone, PartialEq)]
pub struct TranslateRequest {
    pub source: String,
    pub target_lang: TargetLang,
}

impl TranslateRequest {
    /// Phrase this piece as a prompt for a provider.
    pub fn to_prompt(&self) -> (r: Prompt)
        ensures
            r matches Prompt::Ask(a) && a.role_play is None && a.question@ == "please translate '"@
                + self.source@ + "' to "@ + lang_name(self.target_lang)
                + ". you should answer only in the target language and result. If there is something like program code in the translation target, please ignore it and output it as is."@,
    {
        let mut q = "please translate '".to_owned();
        q.append(self.source.as_str());
        q.append("' to ");
        q.append(self.target_lang.to_str());
        q.append(
            ". you should answer only in the target language and result. If there is something like program code in the translation target, please ignore it and output it as is.",
        );
        Prompt::Ask(Ask { question: q, role_play: None })
    }
}

/// A translated piece, paired with its source.
#[derive(Debug, Clone, PartialEq)]
pub struct TranslateResult {
    pub from: TranslateRequest,
    pub translated: String,
}

impl TranslateResult {
    /// The source and its translation, one per line.
    pub fn to_text(&self) -> (r: String)
        ensures
            r@ == self.from.source@ + "\n"@ + self.translated@,
    {
        let mut s = self.from.source.clone();
        s.append("\n");
        s.append(self.translated.as_str());
        s
    }
}

/// Split the source at every separator, keeping the separator at the end
/// of its piece.  An empty source yields no pieces.
pub open spec fn split_incl(s: Seq<char>, seps: Seq<char>) -> Seq<Seq<char>>
    decreases s.len(),
{
    if s.len() == 0 {
        Seq::empty()
    } else if seps.contains(s[0]) {
        seq![seq![s[0]]] + split_incl(s.skip(1), seps)
    } else {
        let r = split_incl(s.skip(1), seps);
        if r.len() == 0 {
            seq![seq![s[0]]]
        } else {
            seq![seq![s[0]] + r[0]] + r.skip(1)
        }
    }
}

/// `r` with `pre` prepended to its first piece; a leftover `pre` becomes a
/// piece of its own.
pub open spec fn adjust_incl(r: Seq<Seq<char>>, pre: Seq<char>) -> Seq<Seq<char>> {
    if r.len() == 0 {
        if pre.len() == 0 {
            Seq::empty()
        } else {
            seq![pre]
        }
    } else {
        seq![pre + r[0]] + r.skip(1)
    }
}

/// How many separator characters a piece contains.
pub open spec fn count_seps(s: Seq<char>, seps: Seq<char>) -> int
    decreases s.len(),
{
    if s.len() == 0 {
        0
    } else {
        (if seps.contains(s[0]) {
            1int
        } else {
            0int
        }) + count_seps(s.skip(1), seps)
    }
}

/// Pack split pieces into requests: a piece that does not begin with a
/// space continues the previous piece, a piece within the separator budget
/// joins it too, and otherwise a new piece starts, trimmed.
pub open spec fn pack_requests(
    pieces: Seq<Seq<char>>,
    seps: Seq<char>,
    limit: int,
    acc: Seq<Seq<char>>,
) -> Seq<Seq<char>>
    decreases pieces.len(),
{
    if pieces.len() == 0 {
        acc
    } else {
        let p = pieces[0];
        let rest = pieces.skip(1);
        if p.len() == 0 {
            pack_requests(rest, seps, limit, acc)
        } else if acc.len() == 0 {
            pack_requests(rest, seps, limit, acc.push(p))
        } else if p[0] != ' ' {
            pack_requests(rest, seps, limit, acc.update(acc.len() - 1, acc.last() + p))
        } else if count_seps(acc.last(), seps) < limit {
            pack_requests(rest, seps, limit, acc.update(acc.len() - 1, acc.last() + p))
        } else {
            pack_requests(rest, seps, limit, acc.push(trim_spec(p)))
        }
    }
}

fn contains_char(seps: &Vec<char>, c: char) -> (r: bool)
    ensures
        r == seps@.contains(c),
{
    let mut i: usize = 0;
    let n = seps.len();
    while i < n
        invariant
            i <= n,
            n == seps@.len(),
            forall|j: int| 0 <= j < i ==> seps@[j] != c,
        decreases n - i,
    {
        if seps[i] == c {
            return true;
        }
        i = i + 1;
    }
    false
}

fn count_seps_exec(s: &str, seps: &Vec<char>) -> (r: usize)
    ensures
        r == count_seps(s@, seps@),
{
    let n = s.unicode_len();
    let mut i: usize = 0;
    let mut cnt: usize = 0;
    proof {
        assert(s@.skip(0) =~= s@);
    }
    #[verifier::loop_isolation(false)]
    while i < n
        invariant
            i <= n,
            cnt <= i,
            count_seps(s@, seps@) == cnt + count_seps(s@.skip(i as int), seps@),
        decreases n - i,
    {
        let c = s.get_char(i);
        proof {
            assert(s@.skip(i as int)[0] == s@[i as int]);
            assert(s@.skip(i as int).skip(1) =~= s@.skip(i + 1));
        }
        if contains_char(seps, c) {
            cnt = cnt + 1;
        }
        i = i + 1;
    }
    proof {
        assert(s@.skip(n as int) =~= Seq::<char>::empty());
    }
    cnt
}

/// Split `source` at every separator, each piece keeping its separator.
#[verifier::loop_isolation(false)]
fn split_pieces(source: &str, seps: &Vec<char>) -> (r: Vec<String>)
    ensures
        str_views(r@) == split_incl(source@, seps@),
{
    let n = source.unicode_len();
    let mut pieces: Vec<String> = Vec::new();
    let mut start: usize = 0;
    let mut i: usize = 0;
    proof {
        assert(source@.skip(0) =~= source@);
        assert(source@.subrange(0, 0) =~= Seq::<char>::empty());
        assert(str_views(pieces@) =~= Seq::<Seq<char>>::empty());
        assert(Seq::<Seq<char>>::empty() + adjust_incl(split_incl(source@, seps@), Seq::<
            char,
        >::empty()) =~= adjust_incl(split_incl(source@, seps@), Seq::<char>::empty()));
        assert(adjust_incl(split_incl(source@, seps@), Seq::<char>::empty()) =~~= split_incl(
            source@,
            seps@,
        ));
    }
    while i < n
        invariant
            start <= i <= n,
            split_incl(source@, seps@) == str_views(pieces@) + adjust_incl(
                split_incl(source@.skip(i as int), seps@),
                source@.subrange(start as int, i as int),
            ),
        decreases n - i,
    {
        let ghost s0 = start as int;
        let ghost cur = source@.subrange(start as int, i as int);
        let ghost s_i = split_incl(source@.skip(i as int), seps@);
        let ghost s_n = split_incl(source@.skip(i + 1), seps@);
        proof {
            assert(source@.skip(i as int)[0] == source@[i as int]);
            assert(source@.skip(i as int).skip(1) =~= source@.skip(i + 1));
            assert(source@.subrange(s0, i + 1) =~= cur.push(source@[i as int]));
        }
        let c = source.get_char(i);
        if contains_char(seps, c) {
            let piece = source.substring_char(start, i + 1).to_owned();
            let ghost old_views = str_views(pieces@);
            pieces.push(piece);
            start = i + 1;
            proof {
                assert(s_i == seq![seq![source@[i as int]]] + s_n);
                assert(str_views(pieces@) =~= old_views.push(cur.push(source@[i as int])));
                assert(source@.subrange(start as int, i + 1) =~= Seq::<char>::empty());
                assert(cur + seq![source@[i as int]] =~= cur.push(source@[i as int]));
                assert(old_views + adjust_incl(s_i, cur) =~~= str_views(pieces@) + adjust_incl(
                    s_n,
                    Seq::<char>::empty(),
                ));
            }
        } else {
            proof {
                if s_n.len() == 0 {
                    assert(s_i == seq![seq![source@[i as int]]]);
                    assert(adjust_incl(s_i, cur) =~~= adjust_incl(
                        s_n,
                        source@.subrange(s0, i + 1),
                    ));
                } else {
                    assert(s_i == seq![seq![source@[i as int]] + s_n[0]] + s_n.skip(1));
                    assert(adjust_incl(s_i, cur) =~~= adjust_incl(
                        s_n,
                        source@.subrange(s0, i + 1),
                    ));
                }
            }
        }
        i = i + 1;
    }
    if start < n {
        let piece = source.substring_char(start, n).to_owned();
        let ghost old_views = str_views(pieces@);
        pieces.push(piece);
        proof {
            assert(source@.skip(n as int) =~= Seq::<char>::empty());
            assert(split_incl(Seq::<char>::empty(), seps@) == Seq::<Seq<char>>::empty());
            assert(old_views + adjust_incl(
                Seq::<Seq<char>>::empty(),
                source@.subrange(start as int, n as int),
            ) =~= old_views.push(source@.subrange(start as int, n as int)));
            assert(str_views(pieces@) =~= old_views.push(
                source@.subrange(start as int, n as int),
            ));
        }
    } else {
        proof {
            assert(source@.skip(n as int) =~= Seq::<char>::empty());
            assert(source@.subrange(start as int, n as int) =~= Seq::<char>::empty());
            assert(str_views(pieces@) + adjust_incl(
                Seq::<Seq<char>>::empty(),
                Seq::<char>::empty(),
            ) =~= str_views(pieces@));
        }
    }
    proof {
        assert(split_incl(source@, seps@) == str_views(pieces@));
    }
    pieces
}

/// Pack split pieces into requests, as [`pack_requests`] describes.
#[verifier::loop_isolation(false)]
fn pack_pieces(pieces: Vec<String>, seps: &Vec<char>, limit: usize) -> (r: Vec<String>)
    ensures
        str_views(r@) == pack_requests(str_views(pieces@), seps@, limit as int, Seq::empty()),
{
    let mut packs: Vec<String> = Vec::new();
    let mut k: usize = 0;
    let m = pieces.len();
    proof {
        assert(str_views(packs@) =~= Seq::<Seq<char>>::empty());
        assert(str_views(pieces@).skip(0) =~= str_views(pieces@));
    }
    while k < m
        invariant
            k <= m,
            m == pieces@.len(),
            pack_requests(str_views(pieces@), seps@, limit as int, Seq::empty()) == pack_requests(
                str_views(pieces@).skip(k as int),
                seps@,
                limit as int,
                str_views(packs@),
            ),
        decreases m - k,
    {
        let ghost pv = str_views(pieces@);
        let ghost qv = str_views(packs@);
        let ghost p_spec = pv[k as int];
        proof {
            assert(pv.skip(k as int)[0] == pv[k as int]);
            assert(pv.skip(k as int).skip(1) =~= pv.skip(k + 1));
        }
        let p_len = pieces[k].as_str().unicode_len();
        if p_len == 0 {
            proof {
                assert(p_spec.len() == 0);
            }
        } else if packs.len() == 0 {
            packs.push(pieces[k].clone());
            proof {
                assert(str_views(packs@) =~= qv.push(p_spec));
            }
        } else {
            proof {
                assert(packs@[packs@.len() - 1]@ == qv.last());
            }
            let joins = if !(pieces[k].as_str().get_char(0) == ' ') {
                true
            } else {
                count_seps_exec(packs[packs.len() - 1].as_str(), seps) < limit
            };
            if joins {
                let mut lq = packs.pop().unwrap();
                lq.append(pieces[k].as_str());
                packs.push(lq);
                proof {
                    assert(str_views(packs@) =~= qv.update(qv.len() - 1, qv.last() + p_spec));
                }
            } else {
                packs.push(trim_str(pieces[k].as_str()));
                proof {
                    assert(str_views(packs@) =~= qv.push(trim_spec(p_spec)));
                }
            }
        }
        k = k + 1;
    }
    proof {
        assert(str_views(pieces@).skip(m as int) =~= Seq::<Seq<char>>::empty());
    }
    packs
}

/// A source text to translate, the separators it may be split at, and how
/// many separators one piece may contain.
#[derive(Debug, Clone, PartialEq)]
pub struct TranslateRequests {
    pub source: String,
    pub separators: Vec<char>,
    pub separate_per_limit: usize,
    pub target_lang: TargetLang,
}

impl TranslateRequests {
    pub fn new(source: String, target_lang: TargetLang) -> (r: TranslateRequests)
        ensures
            r.source@ == source@,
            r.separators@.len() == 0,
            r.separate_per_limit == 1,
            r.target_lang == target_lang,
    {
        TranslateRequests { source, separate_per_limit: 1, separators: Vec::new(), target_lang }
    }

    pub fn separate_per_limit(self, limit: usize) -> (r: TranslateRequests)
        ensures
            r.source == self.source,
            r.separators == self.separators,
            r.separate_per_limit == limit,
            r.target_lang == self.target_lang,
    {
        TranslateRequests { separate_per_limit: limit, ..self }
    }

    pub fn separators(self, separators: Vec<char>) -> (r: TranslateRequests)
        ensures
            r.source == self.source,
            r.separators == separators,
            r.separate_per_limit == self.separate_per_limit,
            r.target_lang == self.target_lang,
    {
        TranslateRequests { separators, ..self }
    }

    /// Split the source into separately translatable pieces.  With no
    /// separators configured the whole source is one piece; otherwise the
    /// source is split inclusively and packed by [`pack_requests`].
    pub fn to_requests(self) -> (r: Vec<TranslateRequest>)
        ensures
            self.separators@.len() == 0 ==> r@.len() == 1 && r@[0].source@ == self.source@
                && r@[0].target_lang == self.target_lang,
            self.separators@.len() > 0 ==> ({
                let packs = pack_requests(
                    split_incl(self.source@, self.separators@),
                    self.separators@,
                    self.separate_per_limit as int,
                    Seq::empty(),
                );
                r@.len() == packs.len() && forall|i: int|
                    0 <= i < r@.len() ==> (#[trigger] r@[i]).source@ == packs[i]
                        && r@[i].target_lang == self.target_lang
            }),
    {
        let mut out: Vec<TranslateRequest> = Vec::new();
        if self.separators.len() == 0 {
            out.push(TranslateRequest { source: self.source, target_lang: self.target_lang });
            return out;
        }
        let target_lang = self.target_lang;
        let pieces = split_pieces(self.source.as_str(), &self.separators);
        let packs = pack_pieces(pieces, &self.separators, self.separate_per_limit);
        // wrap each pack in a request
        let ghost qsv = packs@;
        let ghost packed = str_views(packs@);
        let mut rest = packs;
        while rest.len() > 0
            invariant
                out@.len() + rest@.len() == qsv.len(),
                packed == str_views(qsv),
                rest@ == qsv.skip(out@.len() as int),
                forall|i: int|
                    0 <= i < out@.len() ==> (#[trigger] out@[i]).source@ == packed[i]
                        && out@[i].target_lang == target_lang,
            decreases rest@.len(),
        {
            let ghost j = out@.len() as int;
            let q = rest.remove(0);
            proof {
                assert(q == qsv.skip(j)[0]);
                assert(qsv.skip(j)[0] == qsv[j]);
                assert(q@ == packed[j]);
                assert(qsv.skip(j).remove(0) =~= qsv.skip(j + 1));
            }
            out.push(TranslateRequest { source: q, target_lang });
        }
        out
    }
}

} // verus!
