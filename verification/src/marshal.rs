//! Boundary marshalling: from the byte buffers of a reward or mint request
//! to the host services that the request may reach.
//!
//! The host hands over a wallet address, and for a mint a metadata text, as
//! raw bytes. Nothing here sends a token, mints or logs. Each function
//! returns the calls that the host is to make, in order, and a request that
//! does not hold up returns a single log line and nothing else.

use vstd::prelude::*;
use vstd::utf8::{decode_utf8, encode_utf8, encode_utf8_decode_utf8, valid_utf8};

verus! {

/// One call of a service that the host supplies.
#[derive(Clone, Debug, PartialEq, Eq)]
pub enum HostCall {
    /// Write a line to the host's log.
    Log(String),
    /// Transfer `amount`, in the smallest unit, to `wallet`.
    SendToken { wallet: String, amount: u64 },
    /// Mint a token for `wallet` with `metadata`.
    MintNft { wallet: String, metadata: String },
}

/// A host call with its texts as sequences of characters.
pub enum HostCallView {
    Log(Seq<char>),
    SendToken { wallet: Seq<char>, amount: u64 },
    MintNft { wallet: Seq<char>, metadata: Seq<char> },
}

impl View for HostCall {
    type V = HostCallView;

    open spec fn view(&self) -> HostCallView {
        match self {
            HostCall::Log(line) => HostCallView::Log(line@),
            HostCall::SendToken { wallet, amount } => HostCallView::SendToken {
                wallet: wallet@,
                amount: *amount,
            },
            HostCall::MintNft { wallet, metadata } => HostCallView::MintNft {
                wallet: wallet@,
                metadata: metadata@,
            },
        }
    }
}

/// The views of a list of host calls.
pub open spec fn views(calls: Seq<HostCall>) -> Seq<HostCallView> {
    calls.map_values(|call: HostCall| call@)
}

/// The bytes of a buffer that may be absent.
pub open spec fn bytes_of(buffer: Option<&[u8]>) -> Option<Seq<u8>> {
    match buffer {
        None => None,
        Some(b) => Some(b@),
    }
}

// ---------------------------------------------------------------------------
// Decimal numbers
// ---------------------------------------------------------------------------

/// The character of a decimal digit.
pub open spec fn digit(d: int) -> char {
    if d == 0 {
        '0'
    } else if d == 1 {
        '1'
    } else if d == 2 {
        '2'
    } else if d == 3 {
        '3'
    } else if d == 4 {
        '4'
    } else if d == 5 {
        '5'
    } else if d == 6 {
        '6'
    } else if d == 7 {
        '7'
    } else if d == 8 {
        '8'
    } else {
        '9'
    }
}

/// The decimal numeral of `n`, without leading zeros.
pub open spec fn decimal(n: nat) -> Seq<char>
    decreases n,
{
    if n < 10 {
        seq![digit(n as int)]
    } else {
        decimal(n / 10).push(digit((n % 10) as int))
    }
}

fn digit_text(d: u64) -> (s: &'static str)
    requires
        d < 10,
    ensures
        s@ == seq![digit(d as int)],
{
    proof {
        reveal_strlit("0");
        reveal_strlit("1");
        reveal_strlit("2");
        reveal_strlit("3");
        reveal_strlit("4");
        reveal_strlit("5");
        reveal_strlit("6");
        reveal_strlit("7");
        reveal_strlit("8");
        reveal_strlit("9");
    }
    let s = if d == 0 {
        "0"
    } else if d == 1 {
        "1"
    } else if d == 2 {
        "2"
    } else if d == 3 {
        "3"
    } else if d == 4 {
        "4"
    } else if d == 5 {
        "5"
    } else if d == 6 {
        "6"
    } else if d == 7 {
        "7"
    } else if d == 8 {
        "8"
    } else {
        "9"
    };
    assert(s@ =~= seq![digit(d as int)]);
    s
}

/// Appends the decimal numeral of `n` to `text`.
pub fn push_decimal(text: &mut String, n: u64)
    ensures
        final(text)@ == old(text)@ + decimal(n as nat),
    decreases n,
{
    if n >= 10 {
        push_decimal(text, n / 10);
    }
    text.append(digit_text(n % 10));
    assert(final(text)@ =~= old(text)@ + decimal(n as nat));
}

// ---------------------------------------------------------------------------
// Text
// ---------------------------------------------------------------------------

/// `core::str::from_utf8`, with its error dropped. The bytes are read as
/// text exactly when they are well-formed UTF-8, and the text is then made
/// of these very bytes.
#[verifier::external_body]
fn text_of(bytes: &[u8]) -> (r: Option<&str>)
    ensures
        r is Some <==> valid_utf8(bytes@),
        r matches Some(s) ==> encode_utf8(s@) == bytes@,
{
    core::str::from_utf8(bytes).ok()
}

/// The text that a buffer holds, if it holds one. An absent buffer holds
/// none.
pub open spec fn text(buffer: Option<Seq<u8>>) -> Option<Seq<char>> {
    match buffer {
        None => None,
        Some(bytes) => if valid_utf8(bytes) {
            Some(decode_utf8(bytes))
        } else {
            None
        },
    }
}

/// A buffer is there and not empty.
pub open spec fn present(buffer: Option<Seq<u8>>) -> bool {
    buffer matches Some(bytes) && bytes.len() > 0
}

/// Tells whether a buffer is there and not empty.
pub fn is_present(buffer: Option<&[u8]>) -> (r: bool)
    ensures
        r == present(bytes_of(buffer)),
{
    match buffer {
        None => false,
        Some(bytes) => bytes.len() > 0,
    }
}

fn decode(buffer: Option<&[u8]>) -> (r: Option<String>)
    ensures
        match text(bytes_of(buffer)) {
            Some(t) => r matches Some(s) && s@ == t,
            None => r is None,
        },
{
    match buffer {
        None => None,
        Some(bytes) => match text_of(bytes) {
            None => None,
            Some(s) => {
                proof {
                    encode_utf8_decode_utf8(s@);
                }
                Some(s.to_owned())
            },
        },
    }
}

fn log_only(line: &str) -> (calls: Vec<HostCall>)
    ensures
        views(calls@) == seq![HostCallView::Log(line@)],
{
    let mut calls: Vec<HostCall> = Vec::new();
    calls.push(HostCall::Log(line.to_owned()));
    assert(views(calls@) =~= seq![HostCallView::Log(line@)]);
    calls
}

// ---------------------------------------------------------------------------
// Reward
// ---------------------------------------------------------------------------

/// The log line of a reward that was sent.
pub open spec fn reward_sent(amount: u64, wallet: Seq<char>) -> Seq<char> {
    "reward_player: sent "@ + decimal(amount as nat) + " to "@ + wallet
}

/// The host calls of a reward request.
pub open spec fn reward_calls(wallet: Option<Seq<u8>>, amount: u64) -> Seq<HostCallView> {
    if !present(wallet) {
        seq![HostCallView::Log("reward_player: invalid wallet pointer/len"@)]
    } else {
        match text(wallet) {
            None => seq![HostCallView::Log("reward_player: wallet string not utf-8"@)],
            Some(w) => seq![
                HostCallView::SendToken { wallet: w, amount },
                HostCallView::Log(reward_sent(amount, w)),
            ],
        }
    }
}

/// Decides a reward of `amount` for the wallet whose address the buffer
/// holds. A wallet buffer that is absent or empty, or that holds no text,
/// gets a log line and no transfer. Otherwise the transfer comes first and
/// the log line that records it second.
pub fn reward_player(wallet: Option<&[u8]>, amount: u64) -> (calls: Vec<HostCall>)
    ensures
        views(calls@) == reward_calls(bytes_of(wallet), amount),
{
    if !is_present(wallet) {
        return log_only("reward_player: invalid wallet pointer/len");
    }
    match decode(wallet) {
        None => log_only("reward_player: wallet string not utf-8"),
        Some(w) => {
            let mut line = "reward_player: sent ".to_owned();
            push_decimal(&mut line, amount);
            line.append(" to ");
            line.append(w.as_str());
            let ghost address = w@;
            let mut calls: Vec<HostCall> = Vec::new();
            calls.push(HostCall::SendToken { wallet: w, amount });
            calls.push(HostCall::Log(line));
            assert(views(calls@) =~= seq![
                HostCallView::SendToken { wallet: address, amount },
                HostCallView::Log(reward_sent(amount, address)),
            ]);
            calls
        },
    }
}

// ---------------------------------------------------------------------------
// Mint
// ---------------------------------------------------------------------------

/// The log line of a mint that was made.
pub open spec fn minted(wallet: Seq<char>, metadata: Seq<char>) -> Seq<char> {
    "mint_nft_for_player: minted for "@ + wallet + " metadata="@ + metadata
}

/// The host calls of a mint request.
pub open spec fn mint_calls(wallet: Option<Seq<u8>>, metadata: Option<Seq<u8>>) -> Seq<
    HostCallView,
> {
    if !present(wallet) {
        seq![HostCallView::Log("mint_nft_for_player: invalid wallet pointer"@)]
    } else if !present(metadata) {
        seq![HostCallView::Log("mint_nft_for_player: invalid metadata pointer"@)]
    } else {
        match (text(wallet), text(metadata)) {
            (Some(w), Some(m)) => seq![
                HostCallView::MintNft { wallet: w, metadata: m },
                HostCallView::Log(minted(w, m)),
            ],
            _ => seq![HostCallView::Log("mint_nft_for_player: utf-8 conversion failed"@)],
        }
    }
}

/// Decides a mint for the wallet whose address the first buffer holds, with
/// the metadata that the second holds. Both buffers are judged alike, the
/// wallet first: a buffer that is absent or empty gets a log line and no
/// mint, and so does a request of which either buffer holds no text.
/// Otherwise the mint comes first and the log line that records it second.
pub fn mint_nft_for_player(wallet: Option<&[u8]>, metadata: Option<&[u8]>) -> (calls: Vec<
    HostCall,
>)
    ensures
        views(calls@) == mint_calls(bytes_of(wallet), bytes_of(metadata)),
{
    if !is_present(wallet) {
        return log_only("mint_nft_for_player: invalid wallet pointer");
    }
    if !is_present(metadata) {
        return log_only("mint_nft_for_player: invalid metadata pointer");
    }
    match (decode(wallet), decode(metadata)) {
        (Some(w), Some(m)) => {
            let mut line = "mint_nft_for_player: minted for ".to_owned();
            line.append(w.as_str());
            line.append(" metadata=");
            line.append(m.as_str());
            let ghost address = w@;
            let ghost data = m@;
            let mut calls: Vec<HostCall> = Vec::new();
            calls.push(HostCall::MintNft { wallet: w, metadata: m });
            calls.push(HostCall::Log(line));
            assert(views(calls@) =~= seq![
                HostCallView::MintNft { wallet: address, metadata: data },
                HostCallView::Log(minted(address, data)),
            ]);
            calls
        },
        _ => log_only("mint_nft_for_player: utf-8 conversion failed"),
    }
}

/// A request reaches the transfer or the mint only with buffers that are
/// there, not empty and text: from any other request comes one log line and
/// nothing else.
pub proof fn lemma_bad_buffer_only_logs(
    wallet: Option<Seq<u8>>,
    metadata: Option<Seq<u8>>,
    amount: u64,
)
    ensures
        !present(wallet) || text(wallet) is None ==> {
            &&& reward_calls(wallet, amount).len() == 1
            &&& reward_calls(wallet, amount)[0] is Log
        },
        !present(wallet) || text(wallet) is None || !present(metadata) || text(metadata) is None
            ==> {
            &&& mint_calls(wallet, metadata).len() == 1
            &&& mint_calls(wallet, metadata)[0] is Log
        },
{
}

} // verus!
