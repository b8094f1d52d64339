//! Highlights URLs with a two-matcher design: an outer grammar recognizes
//! `http(s)://host/path?query` shells; an inner grammar, applied only to the
//! captured query text, recognizes `key=value` pairs after `?` or `&`.
//!
//! URLs are frequently embedded in prose wrapped in parentheses; a greedy
//! match may over-capture trailing `)` that close an outer paren. The number
//! of closing parens in excess of the opening ones, capped by the count of
//! literal trailing `)` bytes, is excluded from the styled region and
//! re-appended afterward, unstyled.

use vstd::prelude::*;
use crate::config::UrlConfig;
use crate::highlight::{find_from, rewrite_from, HighlightResult, Token};
use crate::scan::{count_byte, run_end, ByteClass};
use crate::style::{ansi_prefix, paint_spec};

verus! {

/// The inner grammar: `?key=value` or `&key=value` inside a query string,
/// with delimiter, key, `=` and value each styled on their own.
pub struct QueryToken {
    pub symbols: Vec<u8>,
    pub key: Vec<u8>,
    pub value: Vec<u8>,
}

impl Token for QueryToken {
    open spec fn match_at(&self, s: Seq<u8>, p: int) -> bool {
        &&& 0 <= p < s.len()
        &&& (s[p] == 63 || s[p] == 38)
        &&& {
            let ke = run_end(s, p + 1, ByteClass::QueryKeyVal);
            ke < s.len() && s[ke] == 61
        }
    }

    open spec fn match_end(&self, s: Seq<u8>, p: int) -> int {
        run_end(s, run_end(s, p + 1, ByteClass::QueryKeyVal) + 1, ByteClass::QueryKeyVal)
    }

    open spec fn replacement(&self, s: Seq<u8>, p: int) -> Seq<u8> {
        let ke = run_end(s, p + 1, ByteClass::QueryKeyVal);
        let ve = run_end(s, ke + 1, ByteClass::QueryKeyVal);
        paint_spec(self.symbols@, seq![s[p]]) + paint_spec(self.key@, s.subrange(p + 1, ke))
            + paint_spec(self.symbols@, seq![61u8]) + paint_spec(
            self.value@,
            s.subrange(ke + 1, ve),
        )
    }

    proof fn lemma_match_end(&self, s: Seq<u8>, p: int) {
        let ke = run_end(s, p + 1, ByteClass::QueryKeyVal);
        crate::scan::lemma_run_end(s, p + 1, ByteClass::QueryKeyVal);
        crate::scan::lemma_run_end(s, ke + 1, ByteClass::QueryKeyVal);
    }

    fn probe(&self, hay: &[u8], p: usize) -> (r: bool) {
        let n = hay.len();
        if hay[p] != 63 && hay[p] != 38 {
            return false;
        }
        let ke = crate::scan::scan_run(hay, p + 1, ByteClass::QueryKeyVal);
        ke < n && hay[ke] == 61
    }

    #[verifier::rlimit(50)]
    fn emit(&self, hay: &[u8], p: usize, out: &mut Vec<u8>) -> (e: usize) {
        let ghost out0 = out@;
        let ghost s = hay@;
        let n = hay.len();
        proof {
            crate::scan::lemma_run_end(s, p + 1, ByteClass::QueryKeyVal);
        }
        let ke = crate::scan::scan_run(hay, p + 1, ByteClass::QueryKeyVal);
        assert(ke < n && s[ke as int] == 61);
        proof {
            crate::scan::lemma_run_end(s, ke + 1, ByteClass::QueryKeyVal);
        }
        let ve = crate::scan::scan_run(hay, ke + 1, ByteClass::QueryKeyVal);
        crate::style::paint_push(out, &self.symbols, hay, p, p + 1);
        let ghost mid = out@;
        crate::style::paint_push(out, &self.key, hay, p + 1, ke);
        crate::style::paint_push(out, &self.symbols, hay, ke, ke + 1);
        crate::style::paint_push(out, &self.value, hay, ke + 1, ve);
        proof {
            assert(s.subrange(p as int, p + 1 as int) =~= seq![s[p as int]]);
            assert(s.subrange(ke as int, ke + 1 as int) =~= seq![61u8]);
            assert(mid =~= out0 + paint_spec(self.symbols@, seq![s[p as int]]));
            assert(out@ =~= out0 + self.replacement(s, p as int));
        }
        ve
    }
}

/// The number of `)` bytes at the very end of `s`.
pub open spec fn trailing_closes(s: Seq<u8>) -> int
    decreases s.len(),
{
    if s.len() > 0 && s.last() == 41 {
        1 + trailing_closes(s.drop_last())
    } else {
        0
    }
}

/// How many closing parens `s` has beyond its opening ones.
pub open spec fn excess_closes(s: Seq<u8>) -> int {
    let opens = count_byte(s, 40);
    let closes = count_byte(s, 41);
    if closes > opens {
        closes - opens
    } else {
        0
    }
}

/// The number of trailing `)` bytes excluded from styling: the excess of
/// closes over opens, capped by the literal trailing `)` count.
pub open spec fn paren_trim(s: Seq<u8>) -> int {
    if trailing_closes(s) <= excess_closes(s) {
        trailing_closes(s)
    } else {
        excess_closes(s)
    }
}

pub proof fn lemma_trailing_closes_facts(s: Seq<u8>)
    ensures
        0 <= trailing_closes(s) <= s.len(),
        forall|j: int| s.len() - trailing_closes(s) <= j < s.len() ==> s[j] == 41,
    decreases s.len(),
{
    if s.len() > 0 && s.last() == 41 {
        lemma_trailing_closes_facts(s.drop_last());
        assert forall|j: int| s.len() - trailing_closes(s) <= j < s.len() implies s[j] == 41 by {
            if j < s.len() - 1 {
                assert(s.drop_last()[j] == s[j]);
            }
        }
    }
}

/// `trailing_closes` is pinned down by its characterization.
pub proof fn lemma_trailing_closes_is(s: Seq<u8>, t: int)
    requires
        0 <= t <= s.len(),
        forall|j: int| s.len() - t <= j < s.len() ==> s[j] == 41,
        t < s.len() ==> s[s.len() - t - 1] != 41,
    ensures
        trailing_closes(s) == t,
    decreases t,
{
    if t == 0 {
        if s.len() > 0 {
            assert(s.last() != 41);
        }
    } else {
        assert(s.last() == 41);
        lemma_trailing_closes_is(s.drop_last(), t - 1);
    }
}

/// Count how many trailing `)` bytes are unbalanced within the given text:
/// the excess of closing over opening parens, capped by the number of
/// literal trailing `)` bytes. This is the trim count excluded from URL
/// styling.
pub fn count_unbalanced_trailing_parens(s: &[u8]) -> (r: usize)
    ensures
        r == paren_trim(s@),
        r <= trailing_closes(s@),
        r <= excess_closes(s@),
{
    let n = s.len();
    let opens = crate::scan::count_occurrences(s, 40);
    let closes = crate::scan::count_occurrences(s, 41);
    proof {
        crate::scan::lemma_count_byte_prefix_bounds(s@, 40, s@.len() as int);
        crate::scan::lemma_count_byte_prefix_bounds(s@, 41, s@.len() as int);
    }
    if closes <= opens {
        proof {
            lemma_trailing_closes_facts(s@);
        }
        return 0;
    }
    let excess = closes - opens;
    let mut t: usize = 0;
    while t < n && s[n - 1 - t] == 41
        invariant
            0 <= t <= n == s@.len(),
            forall|j: int| s@.len() - t <= j < s@.len() ==> s@[j] == 41,
        decreases n - t,
    {
        t += 1;
    }
    proof {
        lemma_trailing_closes_is(s@, t as int);
    }
    if t < excess {
        t
    } else {
        excess
    }
}

/// The paren-balance law: the trim count never exceeds the literal trailing
/// `)` run, so re-appending that many `)` bytes after the styled region
/// reproduces the original trailing text exactly.
pub proof fn lemma_paren_trim_round_trip(s: Seq<u8>)
    ensures
        0 <= paren_trim(s) <= s.len(),
        s =~= s.subrange(0, s.len() - paren_trim(s)) + repeat_close(paren_trim(s)),
{
    lemma_trailing_closes_facts(s);
}

/// `n` copies of the `)` byte.
pub open spec fn repeat_close(n: int) -> Seq<u8> {
    Seq::new(n as nat, |i: int| 41u8)
}

pub struct UrlHighlighter {
    pub http: Vec<u8>,
    pub https: Vec<u8>,
    pub host: Vec<u8>,
    pub path: Vec<u8>,
    pub query: QueryToken,
}

/// Where the protocol of a URL at `p` ends: after `https` when the `s` is
/// present, after `http` otherwise.
pub open spec fn proto_end(s: Seq<u8>, p: int) -> int {
    if p + 4 < s.len() && s[p + 4] == 115 {
        p + 5
    } else {
        p + 4
    }
}

/// A URL at `p`: `http` or `https`, then `://`, then a nonempty host.
pub open spec fn url_at(s: Seq<u8>, p: int) -> bool {
    &&& 0 <= p
    &&& p + 4 <= s.len()
    &&& s[p] == 104 && s[p + 1] == 116 && s[p + 2] == 116 && s[p + 3] == 112
    &&& {
        let pe = proto_end(s, p);
        &&& pe + 3 <= s.len()
        &&& s[pe] == 58 && s[pe + 1] == 47 && s[pe + 2] == 47
        &&& run_end(s, pe + 3, ByteClass::UrlHost) > pe + 3
    }
}

pub open spec fn host_end(s: Seq<u8>, p: int) -> int {
    run_end(s, proto_end(s, p) + 3, ByteClass::UrlHost)
}

/// The end of the path: a path starts with `/` right after the host and runs
/// greedily over the path bytes; with no `/` there, the path is empty.
pub open spec fn path_end(s: Seq<u8>, p: int) -> int {
    let he = host_end(s, p);
    if he < s.len() && s[he] == 47 {
        run_end(s, he, ByteClass::UrlPath)
    } else {
        he
    }
}

/// Whether a query (`?`...) follows the path.
pub open spec fn has_query(s: Seq<u8>, p: int) -> bool {
    let pa = path_end(s, p);
    pa < s.len() && s[pa] == 63
}

/// The end of the whole URL match.
pub open spec fn url_end(s: Seq<u8>, p: int) -> int {
    let pa = path_end(s, p);
    if has_query(s, p) {
        run_end(s, pa, ByteClass::UrlQuery)
    } else {
        pa
    }
}

/// The trim count stays inside the path (with no query) or inside the query:
/// the trailing `)` run of the match can never reach back past the path's
/// leading `/` or the query's leading `?`.
pub proof fn lemma_url_trim_bounds(s: Seq<u8>, p: int)
    requires
        0 <= p < s.len(),
        url_at(s, p),
    ensures
        ({
            let he = host_end(s, p);
            let pa = path_end(s, p);
            let ue = url_end(s, p);
            let t = paren_trim(s.subrange(p, ue));
            &&& 0 <= t
            &&& p < he <= pa <= ue <= s.len()
            &&& (has_query(s, p) ==> pa + t < ue)
            &&& (!has_query(s, p) ==> ue == pa && (t > 0 ==> he < pa && he < pa - t + 1))
        }),
{
    let pe = proto_end(s, p);
    let he = host_end(s, p);
    let pa = path_end(s, p);
    let ue = url_end(s, p);
    crate::scan::lemma_run_end(s, pe + 3, ByteClass::UrlHost);
    if he < s.len() && s[he] == 47 {
        crate::scan::lemma_run_end(s, he, ByteClass::UrlPath);
    }
    if has_query(s, p) {
        crate::scan::lemma_run_end(s, pa, ByteClass::UrlQuery);
    }
    let m = s.subrange(p, ue);
    let t = paren_trim(m);
    lemma_trailing_closes_facts(m);
    if has_query(s, p) {
        if t > ue - pa - 1 {
            assert(m[pa - p] == 41);
            assert(m[pa - p] == s[pa]);
            assert(false);
        }
    } else {
        if t > 0 {
            if he == pa {
                assert(crate::scan::class_holds(ByteClass::UrlHost, s[he - 1]));
                assert(m[m.len() - 1] == s[ue - 1]);
                assert(trailing_closes(m) == 0);
                assert(false);
            }
            if t > pa - he - 1 {
                assert(m[he - p] == 41);
                assert(m[he - p] == s[he]);
                assert(false);
            }
        }
    }
}

/// The styled protocol, the bare `://`, the styled host and the styled path
/// of the URL at `p`, with `t` trailing parens excluded from the path when
/// there is no query.
pub open spec fn url_head(h: &UrlHighlighter, s: Seq<u8>, p: int, t: int) -> Seq<u8> {
    let pe = proto_end(s, p);
    let he = host_end(s, p);
    let pa = path_end(s, p);
    let proto_prefix = if pe == p + 5 {
        h.https@
    } else {
        h.http@
    };
    paint_spec(proto_prefix, s.subrange(p, pe)) + seq![58u8, 47u8, 47u8] + paint_spec(
        h.host@,
        s.subrange(pe + 3, he),
    ) + (if !has_query(s, p) && t > 0 {
        paint_spec(h.path@, s.subrange(he, pa - t))
    } else {
        paint_spec(h.path@, s.subrange(he, pa))
    })
}

/// The query of the URL at `p`, rewritten by the inner grammar, with `t`
/// trailing parens excluded; empty when there is no query.
pub open spec fn url_query_out(h: &UrlHighlighter, s: Seq<u8>, p: int, t: int) -> Seq<u8> {
    if has_query(s, p) {
        rewrite_from(&h.query, s.subrange(path_end(s, p), url_end(s, p) - t), 0)
    } else {
        seq![]
    }
}

impl UrlHighlighter {
    /// Append `url_head` for the URL at `p`.
    #[verifier::rlimit(100)]
    fn emit_head(&self, hay: &[u8], p: usize, t: usize, out: &mut Vec<u8>)
        requires
            p < hay@.len(),
            url_at(hay@, p as int),
            has_query(hay@, p as int) || t + host_end(hay@, p as int) <= path_end(
                hay@,
                p as int,
            ) || t == 0,
        ensures
            final(out)@ == old(out)@ + url_head(self, hay@, p as int, t as int),
    {
        let ghost out0 = out@;
        let ghost s = hay@;
        let n = hay.len();
        let pe = if p + 4 < n && hay[p + 4] == 115 {
            p + 5
        } else {
            p + 4
        };
        proof {
            assert(pe as int == proto_end(s, p as int));
            crate::scan::lemma_run_end(s, pe + 3 as int, ByteClass::UrlHost);
        }
        let he = crate::scan::scan_run(hay, pe + 3, ByteClass::UrlHost);
        let pa = if he < n && hay[he] == 47 {
            proof {
                crate::scan::lemma_run_end(s, he as int, ByteClass::UrlPath);
            }
            crate::scan::scan_run(hay, he, ByteClass::UrlPath)
        } else {
            he
        };
        let hasq = pa < n && hay[pa] == 63;
        proof {
            assert(he as int == host_end(s, p as int));
            assert(pa as int == path_end(s, p as int));
            assert(hasq == has_query(s, p as int));
        }
        if pe == p + 5 {
            crate::style::paint_push(out, &self.https, hay, p, pe);
        } else {
            crate::style::paint_push(out, &self.http, hay, p, pe);
        }
        out.push(58);
        out.push(47);
        out.push(47);
        let ghost g_proto = out@;
        proof {
            let proto_prefix = if pe as int == p + 5 {
                self.https@
            } else {
                self.http@
            };
            assert(g_proto =~= out0 + (paint_spec(proto_prefix, s.subrange(p as int, pe as int))
                + seq![58u8, 47u8, 47u8]));
        }
        crate::style::paint_push(out, &self.host, hay, pe + 3, he);
        if !hasq && t > 0 {
            crate::style::paint_push(out, &self.path, hay, he, pa - t);
        } else {
            crate::style::paint_push(out, &self.path, hay, he, pa);
        }
        proof {
            assert(out@ =~= out0 + url_head(self, s, p as int, t as int));
        }
    }

    pub fn new(config: UrlConfig) -> (r: Self)
        ensures
            r.http@ == ansi_prefix(config.http),
            r.https@ == ansi_prefix(config.https),
            r.host@ == ansi_prefix(config.host),
            r.path@ == ansi_prefix(config.path),
            r.query.symbols@ == ansi_prefix(config.symbols),
            r.query.key@ == ansi_prefix(config.query_params_key),
            r.query.value@ == ansi_prefix(config.query_params_value),
    {
        UrlHighlighter {
            http: crate::style::nu_style_prefix(&config.http),
            https: crate::style::nu_style_prefix(&config.https),
            host: crate::style::nu_style_prefix(&config.host),
            path: crate::style::nu_style_prefix(&config.path),
            query: QueryToken {
                symbols: crate::style::nu_style_prefix(&config.symbols),
                key: crate::style::nu_style_prefix(&config.query_params_key),
                value: crate::style::nu_style_prefix(&config.query_params_value),
            },
        }
    }

    /// What one pass produces: `None` exactly when the line holds no URL.
    pub open spec fn apply_spec(&self, s: Seq<u8>) -> Option<Seq<u8>> {
        if find_from(self, s, 0) is None {
            None
        } else {
            Some(rewrite_from(self, s, 0))
        }
    }

    pub fn apply(&self, input: &[u8]) -> (r: HighlightResult)
        ensures
            r.as_option() == self.apply_spec(input@),
            find_from(self, input@, 0) is None ==> r is Unchanged,
    {
        crate::highlight::rewrite(self, input)
    }
}

impl Token for UrlHighlighter {
    open spec fn match_at(&self, s: Seq<u8>, p: int) -> bool {
        url_at(s, p)
    }

    open spec fn match_end(&self, s: Seq<u8>, p: int) -> int {
        url_end(s, p)
    }

    open spec fn replacement(&self, s: Seq<u8>, p: int) -> Seq<u8> {
        let t = paren_trim(s.subrange(p, url_end(s, p)));
        url_head(self, s, p, t) + url_query_out(self, s, p, t) + repeat_close(t)
    }

    proof fn lemma_match_end(&self, s: Seq<u8>, p: int) {
        let pe = proto_end(s, p);
        let he = host_end(s, p);
        let pa = path_end(s, p);
        crate::scan::lemma_run_end(s, pe + 3, ByteClass::UrlHost);
        if he < s.len() && s[he] == 47 {
            crate::scan::lemma_run_end(s, he, ByteClass::UrlPath);
        }
        if has_query(s, p) {
            crate::scan::lemma_run_end(s, pa, ByteClass::UrlQuery);
        }
    }

    fn probe(&self, hay: &[u8], p: usize) -> (r: bool) {
        let n = hay.len();
        if n - p < 4 {
            return false;
        }
        if hay[p] != 104 || hay[p + 1] != 116 || hay[p + 2] != 116 || hay[p + 3] != 112 {
            return false;
        }
        let pe = if p + 4 < n && hay[p + 4] == 115 {
            p + 5
        } else {
            p + 4
        };
        if n - pe < 3 {
            return false;
        }
        if hay[pe] != 58 || hay[pe + 1] != 47 || hay[pe + 2] != 47 {
            return false;
        }
        let he = crate::scan::scan_run(hay, pe + 3, ByteClass::UrlHost);
        he > pe + 3
    }

    #[verifier::rlimit(100)]
    fn emit(&self, hay: &[u8], p: usize, out: &mut Vec<u8>) -> (e: usize) {
        let ghost out0 = out@;
        let ghost s = hay@;
        let n = hay.len();
        let pe = if p + 4 < n && hay[p + 4] == 115 {
            p + 5
        } else {
            p + 4
        };
        proof {
            assert(pe as int == proto_end(s, p as int));
            crate::scan::lemma_run_end(s, pe + 3 as int, ByteClass::UrlHost);
        }
        let he = crate::scan::scan_run(hay, pe + 3, ByteClass::UrlHost);
        let pa = if he < n && hay[he] == 47 {
            proof {
                crate::scan::lemma_run_end(s, he as int, ByteClass::UrlPath);
            }
            crate::scan::scan_run(hay, he, ByteClass::UrlPath)
        } else {
            he
        };
        let hasq = pa < n && hay[pa] == 63;
        let ue = if hasq {
            proof {
                crate::scan::lemma_run_end(s, pa as int, ByteClass::UrlQuery);
            }
            crate::scan::scan_run(hay, pa, ByteClass::UrlQuery)
        } else {
            pa
        };
        proof {
            assert(he as int == host_end(s, p as int));
            assert(pa as int == path_end(s, p as int));
            assert(hasq == has_query(s, p as int));
            assert(ue as int == url_end(s, p as int));
        }
        let t = count_unbalanced_trailing_parens(&hay[p..ue]);
        proof {
            lemma_url_trim_bounds(s, p as int);
        }
        self.emit_head(hay, p, t, out);
        let ghost g_head = out@;
        // query, rewritten by the inner grammar
        if hasq {
            let q = &hay[pa..ue - t];
            match crate::highlight::rewrite(&self.query, q) {
                HighlightResult::Unchanged => {
                    crate::scan::append_range(out, hay, pa, ue - t);
                    proof {
                        assert(rewrite_from(&self.query, q@, 0) == q@.subrange(0, q@.len() as int));
                        assert(q@.subrange(0, q@.len() as int) =~= q@);
                    }
                },
                HighlightResult::Highlighted(v) => {
                    crate::scan::append_vec(out, &v);
                },
            }
        }
        let ghost g_query = out@;
        proof {
            assert(g_query =~= g_head + url_query_out(self, s, p as int, t as int));
        }
        // the excluded trailing parens, unstyled
        let mut k: usize = 0;
        while k < t
            invariant
                0 <= k <= t,
                out@ == g_query + repeat_close(k as int),
            decreases t - k,
        {
            out.push(41);
            proof {
                assert(out@ =~= g_query + repeat_close(k + 1 as int));
            }
            k += 1;
        }
        proof {
            assert(out@ =~= out0 + self.replacement(s, p as int));
        }
        ue
    }
}

} // verus!
