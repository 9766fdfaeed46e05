//! Protocol classifier and reactor: decides whether one complete control
//! line is a keep-alive challenge, a negotiation-finished signal, or a file
//! offer, and produces the outbound reply or the transfer descriptor.
//!
//! The recognized shapes are structural matchers over space-separated
//! tokens, anchored at the start of the line but tolerating one optional
//! leading origin-prefix token. They are tried in a fixed priority order:
//! keep-alive, then mode signal, then offer; the first match wins.

use vstd::prelude::*;
use crate::text::{
    first_space, first_quote, token_end, is_digit, all_digits, digits_val, dec_digits, find_space,
    find_quote, copy_range, extend_from, check_all_digits, parse_u64, push_dec,
};

verus! {

// ---------------------------------------------------------------------
// Shape predicates
// ---------------------------------------------------------------------
/// Start of the match proper: position 0, or just past the first token
/// when the line carries an origin prefix (`:server ...`). The prefixed
/// position is tried first, as an anchored matcher that may skip one
/// leading token does.
pub open spec fn prefix_pos(s: Seq<u8>) -> Option<int> {
    match first_space(s, 0) {
        Some(j) => if j >= 1 {
            Some(j + 1)
        } else {
            None
        },
        None => None,
    }
}

/// `PING ` at position `i`, followed by a non-empty token.
pub open spec fn ping_at(s: Seq<u8>, i: int) -> bool {
    &&& 0 <= i
    &&& i + 6 <= s.len()
    &&& s[i] == 80u8
    &&& s[i + 1] == 73u8
    &&& s[i + 2] == 78u8
    &&& s[i + 3] == 71u8
    &&& s[i + 4] == 32u8
    &&& s[i + 5] != 32u8
}

/// `MODE` at position `i`.
pub open spec fn mode_at(s: Seq<u8>, i: int) -> bool {
    &&& 0 <= i
    &&& i + 4 <= s.len()
    &&& s[i] == 77u8
    &&& s[i + 1] == 79u8
    &&& s[i + 2] == 68u8
    &&& s[i + 3] == 69u8
}

/// `PRIVMSG` at position `i`.
pub open spec fn privmsg_at(s: Seq<u8>, i: int) -> bool {
    &&& 0 <= i
    &&& i + 7 <= s.len()
    &&& s[i] == 80u8
    &&& s[i + 1] == 82u8
    &&& s[i + 2] == 73u8
    &&& s[i + 3] == 86u8
    &&& s[i + 4] == 77u8
    &&& s[i + 5] == 83u8
    &&& s[i + 6] == 71u8
}

/// The DCC send action keyword, upper or lower case: `DCC SEND `.
pub open spec fn dcc_kw_at(s: Seq<u8>, i: int) -> bool {
    &&& 0 <= i
    &&& i + 9 <= s.len()
    &&& ((s[i] == 68u8 && s[i + 1] == 67u8 && s[i + 2] == 67u8) || (s[i] == 100u8 && s[i + 1]
        == 99u8 && s[i + 2] == 99u8))
    &&& s[i + 3] == 32u8
    &&& ((s[i + 4] == 83u8 && s[i + 5] == 69u8 && s[i + 6] == 78u8 && s[i + 7] == 68u8) || (s[i
        + 4] == 115u8 && s[i + 5] == 101u8 && s[i + 6] == 110u8 && s[i + 7] == 100u8))
    &&& s[i + 8] == 32u8
}

/// First occurrence of the DCC send keyword at or after `i`.
pub open spec fn first_dcc(s: Seq<u8>, i: int) -> Option<int>
    decreases s.len() - i,
{
    if i < 0 || i >= s.len() {
        None
    } else if dcc_kw_at(s, i) {
        Some(i)
    } else {
        first_dcc(s, i + 1)
    }
}

// ---------------------------------------------------------------------
// Keep-alive shape
// ---------------------------------------------------------------------
/// Where the keep-alive match starts, if the line matches it at all:
/// the prefixed position is preferred, then the line start.
pub open spec fn ping_pos(s: Seq<u8>) -> Option<int> {
    if prefix_pos(s) matches Some(p) && ping_at(s, p) {
        prefix_pos(s)
    } else if ping_at(s, 0) {
        Some(0)
    } else {
        None
    }
}

pub open spec fn is_ping_line(s: Seq<u8>) -> bool {
    ping_pos(s) is Some
}

/// The opaque challenge token carried by a keep-alive line.
pub open spec fn ping_token(s: Seq<u8>) -> Seq<u8> {
    let p = ping_pos(s)->Some_0;
    s.subrange(p + 5, token_end(s, p + 5))
}

pub open spec fn is_mode_line(s: Seq<u8>) -> bool {
    mode_at(s, 0) || (prefix_pos(s) matches Some(p) && mode_at(s, p))
}

// ---------------------------------------------------------------------
// Offer shape
// ---------------------------------------------------------------------
/// What a recognized offer line yields.
pub ghost struct DccView {
    pub filename: Seq<u8>,
    pub endpoint: Seq<u8>,
    pub size: usize,
}

/// An address token: decimal digits, or a dotted form.
pub open spec fn ip_token_ok(t: Seq<u8>) -> bool {
    t.len() > 0 && forall|i: int| 0 <= i < t.len() ==> is_digit(t[i]) || t[i] == 46u8
}

/// An integer address is rendered dotted, four octets high to low; a
/// dotted or oversized token passes through unchanged.
pub open spec fn dotted_quad(v: nat) -> Seq<u8> {
    dec_digits(v / 16777216 % 256) + seq![46u8] + dec_digits(v / 65536 % 256) + seq![46u8]
        + dec_digits(v / 256 % 256) + seq![46u8] + dec_digits(v % 256)
}

/// The descriptor's endpoint: address and port joined by a colon.
pub open spec fn endpoint_of(ip: Seq<u8>, port: Seq<u8>) -> Seq<u8> {
    (if all_digits(ip) && digits_val(ip) <= u32::MAX {
        dotted_quad(digits_val(ip))
    } else {
        ip
    }) + seq![58u8] + port
}

/// The three numeric tokens that close an offer line: address, port, size,
/// with the size required to fit the machine's byte count.
pub open spec fn parse_offer_nums(s: Seq<u8>, k: int, fname: Seq<u8>) -> Option<DccView> {
    match first_space(s, k) {
        Some(a) => match first_space(s, a + 1) {
            Some(b) => {
                let ip = s.subrange(k, a);
                let port = s.subrange(a + 1, b);
                let size_tok = s.subrange(b + 1, s.len() as int);
                if k < a && a + 1 < b && ip_token_ok(ip) && all_digits(port) && all_digits(
                    size_tok,
                ) && digits_val(size_tok) <= usize::MAX {
                    Some(
                        DccView {
                            filename: fname,
                            endpoint: endpoint_of(ip, port),
                            size: digits_val(size_tok) as usize,
                        },
                    )
                } else {
                    None
                }
            },
            None => None,
        },
        None => None,
    }
}

/// The payload after the action keyword: an optionally quoted filename,
/// then the numeric tokens.
pub open spec fn parse_offer_payload(s: Seq<u8>, p: int) -> Option<DccView> {
    if 0 <= p && p < s.len() && s[p] == 34u8 {
        match first_quote(s, p + 1) {
            Some(q) => if q + 1 < s.len() && s[q + 1] == 32u8 {
                parse_offer_nums(s, q + 2, s.subrange(p + 1, q))
            } else {
                None
            },
            None => None,
        }
    } else {
        match first_space(s, p) {
            Some(sp) => if sp > p {
                parse_offer_nums(s, sp + 1, s.subrange(p, sp))
            } else {
                None
            },
            None => None,
        }
    }
}

/// An offer match anchored at `i`: `PRIVMSG`, then the first DCC send
/// keyword, then the payload.
pub open spec fn offer_at(s: Seq<u8>, i: int) -> Option<DccView> {
    if privmsg_at(s, i) {
        match first_dcc(s, i + 7) {
            Some(j) => parse_offer_payload(s, j + 9),
            None => None,
        }
    } else {
        None
    }
}

/// The offer extracted from a line, trying the prefixed anchor first.
pub open spec fn offer_of(s: Seq<u8>) -> Option<DccView> {
    if prefix_pos(s) matches Some(p) && offer_at(s, p) is Some {
        offer_at(s, prefix_pos(s)->Some_0)
    } else {
        offer_at(s, 0)
    }
}

// ---------------------------------------------------------------------
// Classification and reactions
// ---------------------------------------------------------------------
pub ghost enum LineClass {
    Ping { token: Seq<u8> },
    ModeSignal,
    Offer { d: DccView },
    Other,
}

/// What one complete line is, by the fixed priority order.
#[verifier::opaque]
pub open spec fn classify(s: Seq<u8>) -> LineClass {
    if is_ping_line(s) {
        LineClass::Ping { token: ping_token(s) }
    } else if is_mode_line(s) {
        LineClass::ModeSignal
    } else {
        match offer_of(s) {
            Some(d) => LineClass::Offer { d },
            None => LineClass::Other,
        }
    }
}

/// A keep-alive line is answered as a keep-alive and nothing else: it can
/// never trigger the offer request, and a line that does trigger the offer
/// request never matches the keep-alive shape.
pub proof fn lemma_classifier_priority(s: Seq<u8>)
    ensures
        is_ping_line(s) ==> classify(s) == (LineClass::Ping { token: ping_token(s) }),
        classify(s) is ModeSignal ==> !is_ping_line(s) && is_mode_line(s),
        classify(s) is Offer ==> !is_ping_line(s) && !is_mode_line(s),
{
    reveal(classify);
}

pub open spec fn pong_msg(token: Seq<u8>) -> Seq<u8> {
    seq![80u8, 79u8, 78u8, 71u8, 32u8] + token
}

pub open spec fn join_msg() -> Seq<u8> {
    seq![74u8, 79u8, 73u8, 78u8, 32u8, 35u8, 110u8, 105u8, 98u8, 108u8]
}

pub open spec fn request_msg(bot: Seq<u8>, n: nat) -> Seq<u8> {
    seq![80u8, 82u8, 73u8, 86u8, 77u8, 83u8, 71u8, 32u8] + bot + seq![
        32u8,
        58u8,
        120u8,
        100u8,
        99u8,
        99u8,
        32u8,
        115u8,
        101u8,
        110u8,
        100u8,
        32u8,
        35u8,
    ] + dec_digits(n)
}

pub open spec fn quit_msg() -> Seq<u8> {
    seq![81u8, 85u8, 73u8, 84u8]
}

/// A transfer descriptor: everything the data-channel executor needs.
/// Constructed once when an offer line matches and consumed immediately.
pub struct Dcc {
    pub filename: Vec<u8>,
    pub endpoint: Vec<u8>,
    pub size: usize,
}

impl View for Dcc {
    type V = DccView;

    open spec fn view(&self) -> DccView {
        DccView { filename: self.filename@, endpoint: self.endpoint@, size: self.size }
    }
}

/// The reactor's verdict on one line: the control messages to send, in
/// order, and the transfer descriptor if the line was a recognized offer.
pub struct LineReaction {
    pub outbound: Vec<Vec<u8>>,
    pub transfer: Option<Dcc>,
}

// ---------------------------------------------------------------------
// Executable matchers
// ---------------------------------------------------------------------
fn ping_check(s: &[u8], i: usize) -> (r: bool)
    requires
        i <= s@.len(),
    ensures
        r == ping_at(s@, i as int),
{
    s.len() - i >= 6 && s[i] == 80u8 && s[i + 1] == 73u8 && s[i + 2] == 78u8 && s[i + 3] == 71u8
        && s[i + 4] == 32u8 && s[i + 5] != 32u8
}

fn mode_check(s: &[u8], i: usize) -> (r: bool)
    requires
        i <= s@.len(),
    ensures
        r == mode_at(s@, i as int),
{
    s.len() - i >= 4 && s[i] == 77u8 && s[i + 1] == 79u8 && s[i + 2] == 68u8 && s[i + 3] == 69u8
}

fn privmsg_check(s: &[u8], i: usize) -> (r: bool)
    requires
        i <= s@.len(),
    ensures
        r == privmsg_at(s@, i as int),
{
    s.len() - i >= 7 && s[i] == 80u8 && s[i + 1] == 82u8 && s[i + 2] == 73u8 && s[i + 3] == 86u8
        && s[i + 4] == 77u8 && s[i + 5] == 83u8 && s[i + 6] == 71u8
}

fn dcc_kw_check(s: &[u8], i: usize) -> (r: bool)
    requires
        i <= s@.len(),
    ensures
        r == dcc_kw_at(s@, i as int),
{
    s.len() - i >= 9 && ((s[i] == 68u8 && s[i + 1] == 67u8 && s[i + 2] == 67u8) || (s[i] == 100u8
        && s[i + 1] == 99u8 && s[i + 2] == 99u8)) && s[i + 3] == 32u8 && ((s[i + 4] == 83u8 && s[i
        + 5] == 69u8 && s[i + 6] == 78u8 && s[i + 7] == 68u8) || (s[i + 4] == 115u8 && s[i + 5]
        == 101u8 && s[i + 6] == 110u8 && s[i + 7] == 100u8)) && s[i + 8] == 32u8
}

fn find_dcc(s: &[u8], from: usize) -> (r: Option<usize>)
    requires
        from <= s@.len(),
    ensures
        match r {
            Some(j) => from <= j && j as int + 9 <= s@.len() && first_dcc(s@, from as int) == Some(
                j as int,
            ),
            None => first_dcc(s@, from as int) is None,
        },
{
    let mut j = from;
    while j < s.len()
        invariant
            from <= j <= s@.len(),
            first_dcc(s@, from as int) == first_dcc(s@, j as int),
        decreases s@.len() - j,
    {
        if dcc_kw_check(s, j) {
            assert(first_dcc(s@, j as int) == Some(j as int));
            return Some(j);
        }
        j = j + 1;
    }
    assert(first_dcc(s@, j as int) is None);
    None
}

fn check_ip_token(s: &[u8]) -> (r: bool)
    ensures
        r == ip_token_ok(s@),
{
    if s.len() == 0 {
        return false;
    }
    let mut i: usize = 0;
    while i < s.len()
        invariant
            i <= s@.len(),
            s@.len() > 0,
            forall|k: int| 0 <= k < i ==> is_digit(s@[k]) || s@[k] == 46u8,
        decreases s@.len() - i,
    {
        let b = s[i];
        if !(48 <= b && b <= 57 || b == 46) {
            return false;
        }
        i = i + 1;
    }
    true
}

/// Build the endpoint bytes from the address and port tokens, rendering an
/// integer address as a dotted quad.
fn build_endpoint(ip: &[u8], port: &[u8]) -> (r: Vec<u8>)
    ensures
        r@ == endpoint_of(ip@, port@),
{
    let mut out: Vec<u8> = Vec::new();
    let mut converted = false;
    if check_all_digits(ip) {
        if let Some(v) = parse_u64(ip) {
            if v <= 0xFFFF_FFFFu64 {
                push_dec(&mut out, (v / 16777216 % 256) as usize);
                out.push(46u8);
                push_dec(&mut out, (v / 65536 % 256) as usize);
                out.push(46u8);
                push_dec(&mut out, (v / 256 % 256) as usize);
                out.push(46u8);
                push_dec(&mut out, (v % 256) as usize);
                converted = true;
                proof {
                    assert(out@ =~= dotted_quad(digits_val(ip@)));
                }
            }
        }
    }
    if !converted {
        extend_from(&mut out, ip);
        proof {
            assert(out@ =~= ip@);
        }
    }
    out.push(58u8);
    extend_from(&mut out, port);
    proof {
        assert(out@ =~= endpoint_of(ip@, port@));
    }
    out
}

/// The numeric tail of an offer payload, starting at `k`.
fn offer_nums(s: &[u8], k: usize, fname: Vec<u8>) -> (r: Option<Dcc>)
    requires
        k <= s@.len(),
    ensures
        match parse_offer_nums(s@, k as int, fname@) {
            Some(dv) => r matches Some(d) && d@ == dv,
            None => r is None,
        },
{
    let n = s.len();
    let a = match find_space(s, k) {
        Some(a) => a,
        None => {
            return None;
        },
    };
    let b = match find_space(s, a + 1) {
        Some(b) => b,
        None => {
            return None;
        },
    };
    if !(k < a && a + 1 < b) {
        return None;
    }
    let ip = copy_range(s, k, a);
    let port = copy_range(s, a + 1, b);
    let size_tok = copy_range(s, b + 1, n);
    if !check_ip_token(ip.as_slice()) || !check_all_digits(port.as_slice()) || !check_all_digits(
        size_tok.as_slice(),
    ) {
        return None;
    }
    let size_v = match parse_u64(size_tok.as_slice()) {
        Some(v) => v,
        None => {
            return None;
        },
    };
    if size_v > usize::MAX as u64 {
        return None;
    }
    let endpoint = build_endpoint(ip.as_slice(), port.as_slice());
    Some(Dcc { filename: fname, endpoint, size: size_v as usize })
}

/// The payload of an offer, just past the action keyword.
fn offer_payload(s: &[u8], p: usize) -> (r: Option<Dcc>)
    requires
        p <= s@.len(),
    ensures
        match parse_offer_payload(s@, p as int) {
            Some(dv) => r matches Some(d) && d@ == dv,
            None => r is None,
        },
{
    if p < s.len() && s[p] == 34u8 {
        match find_quote(s, p + 1) {
            Some(q) => {
                if q + 1 < s.len() && s[q + 1] == 32u8 {
                    let fname = copy_range(s, p + 1, q);
                    offer_nums(s, q + 2, fname)
                } else {
                    None
                }
            },
            None => None,
        }
    } else {
        match find_space(s, p) {
            Some(sp) => {
                if sp > p {
                    let fname = copy_range(s, p, sp);
                    offer_nums(s, sp + 1, fname)
                } else {
                    None
                }
            },
            None => None,
        }
    }
}

fn offer_match(s: &[u8], i: usize) -> (r: Option<Dcc>)
    requires
        i <= s@.len(),
    ensures
        match offer_at(s@, i as int) {
            Some(dv) => r matches Some(d) && d@ == dv,
            None => r is None,
        },
{
    let n = s.len();
    if !privmsg_check(s, i) {
        return None;
    }
    match find_dcc(s, i + 7) {
        Some(j) => offer_payload(s, j + 9),
        None => None,
    }
}

/// The token that starts at `i`, running to the next space or line end.
fn token_at(s: &[u8], i: usize) -> (r: Vec<u8>)
    requires
        i <= s@.len(),
    ensures
        r@ == s@.subrange(i as int, token_end(s@, i as int)),
{
    match find_space(s, i) {
        Some(j) => copy_range(s, i, j),
        None => copy_range(s, i, s.len()),
    }
}

fn build_pong(token: &[u8]) -> (r: Vec<u8>)
    ensures
        r@ == pong_msg(token@),
{
    let mut out: Vec<u8> = Vec::new();
    out.push(80u8);
    out.push(79u8);
    out.push(78u8);
    out.push(71u8);
    out.push(32u8);
    extend_from(&mut out, token);
    proof {
        assert(out@ =~= pong_msg(token@));
    }
    out
}

fn build_join() -> (r: Vec<u8>)
    ensures
        r@ == join_msg(),
{
    let mut out: Vec<u8> = Vec::new();
    out.push(74u8);
    out.push(79u8);
    out.push(73u8);
    out.push(78u8);
    out.push(32u8);
    out.push(35u8);
    out.push(110u8);
    out.push(105u8);
    out.push(98u8);
    out.push(108u8);
    proof {
        assert(out@ =~= join_msg());
    }
    out
}

fn build_request(bot: &[u8], packnum: usize) -> (r: Vec<u8>)
    ensures
        r@ == request_msg(bot@, packnum as nat),
{
    let mut out: Vec<u8> = Vec::new();
    out.push(80u8);
    out.push(82u8);
    out.push(73u8);
    out.push(86u8);
    out.push(77u8);
    out.push(83u8);
    out.push(71u8);
    out.push(32u8);
    extend_from(&mut out, bot);
    out.push(32u8);
    out.push(58u8);
    out.push(120u8);
    out.push(100u8);
    out.push(99u8);
    out.push(99u8);
    out.push(32u8);
    out.push(115u8);
    out.push(101u8);
    out.push(110u8);
    out.push(100u8);
    out.push(32u8);
    out.push(35u8);
    push_dec(&mut out, packnum);
    proof {
        assert(out@ =~= request_msg(bot@, packnum as nat));
    }
    out
}

pub fn build_quit() -> (r: Vec<u8>)
    ensures
        r@ == quit_msg(),
{
    let mut out: Vec<u8> = Vec::new();
    out.push(81u8);
    out.push(85u8);
    out.push(73u8);
    out.push(84u8);
    proof {
        assert(out@ =~= quit_msg());
    }
    out
}

/// Whether this line is the negotiation-finished signal: it matches the
/// mode shape and is not claimed first by the keep-alive shape.
pub fn mode_signal(line: &[u8]) -> (r: bool)
    ensures
        r == (classify(line@) is ModeSignal),
{
    proof {
        reveal(classify);
    }
    let n = line.len();
    let pre: Option<usize> = match find_space(line, 0) {
        Some(j) => if j >= 1 {
            Some(j + 1)
        } else {
            None
        },
        None => None,
    };
    proof {
        match pre {
            Some(p) => assert(prefix_pos(line@) == Some(p as int)),
            None => assert(prefix_pos(line@) is None),
        }
    }
    let ping = match pre {
        Some(p) => ping_check(line, p) || ping_check(line, 0),
        None => ping_check(line, 0),
    };
    if ping {
        assert(is_ping_line(line@));
        return false;
    }
    assert(!is_ping_line(line@));
    match pre {
        Some(p) => mode_check(line, 0) || mode_check(line, p),
        None => mode_check(line, 0),
    }
}

/// Classify one complete line and react: echo a keep-alive, answer the
/// mode signal with the join and the offer request for pack `packnum` of
/// `bot`, yield the transfer descriptor of a recognized offer, and stay
/// silent on every other line.
pub fn handle_message(line: &[u8], bot: &[u8], packnum: usize) -> (r: LineReaction)
    ensures
        match classify(line@) {
            LineClass::Ping { token } => r.outbound.deep_view() == seq![pong_msg(token)]
                && r.transfer is None,
            LineClass::ModeSignal => r.outbound.deep_view() == seq![
                join_msg(),
                request_msg(bot@, packnum as nat),
            ] && r.transfer is None,
            LineClass::Offer { d } => r.outbound.deep_view() == Seq::<Seq<u8>>::empty() && (
            r.transfer matches Some(dcc) && dcc@ == d),
            LineClass::Other => r.outbound.deep_view() == Seq::<Seq<u8>>::empty()
                && r.transfer is None,
        },
{
    proof {
        reveal(classify);
    }
    let n = line.len();
    let pre: Option<usize> = match find_space(line, 0) {
        Some(j) => if j >= 1 {
            Some(j + 1)
        } else {
            None
        },
        None => None,
    };
    proof {
        match pre {
            Some(p) => assert(prefix_pos(line@) == Some(p as int)),
            None => assert(prefix_pos(line@) is None),
        }
    }
    // Keep-alive: echo the challenge token.
    let ppos: Option<usize> = match pre {
        Some(p) => {
            if ping_check(line, p) {
                Some(p)
            } else if ping_check(line, 0) {
                Some(0)
            } else {
                None
            }
        },
        None => {
            if ping_check(line, 0) {
                Some(0)
            } else {
                None
            }
        },
    };
    if let Some(p) = ppos {
        assert(ping_pos(line@) == Some(p as int));
        let token = token_at(line, p + 5);
        let pong = build_pong(token.as_slice());
        let mut outbound: Vec<Vec<u8>> = Vec::new();
        outbound.push(pong);
        proof {
            assert(outbound.deep_view() =~~= seq![pong_msg(ping_token(line@))]);
        }
        return LineReaction { outbound, transfer: None };
    }
    assert(!is_ping_line(line@));
    // Mode signal: join the offer channel and request the pack.
    let modish = match pre {
        Some(p) => mode_check(line, 0) || mode_check(line, p),
        None => mode_check(line, 0),
    };
    if modish {
        assert(is_mode_line(line@));
        let mut outbound: Vec<Vec<u8>> = Vec::new();
        outbound.push(build_join());
        outbound.push(build_request(bot, packnum));
        proof {
            assert(outbound.deep_view() =~~= seq![join_msg(), request_msg(bot@, packnum as nat)]);
        }
        return LineReaction { outbound, transfer: None };
    }
    assert(!is_mode_line(line@));
    // Offer: extract the transfer descriptor.
    let d = match pre {
        Some(p) => match offer_match(line, p) {
            Some(d) => Some(d),
            None => offer_match(line, 0),
        },
        None => offer_match(line, 0),
    };
    let outbound: Vec<Vec<u8>> = Vec::new();
    proof {
        assert(outbound.deep_view() =~~= Seq::<Seq<u8>>::empty());
    }
    LineReaction { outbound, transfer: d }
}

} // verus!
