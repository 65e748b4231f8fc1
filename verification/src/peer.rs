//! Per-correspondent trust state: the record kept about one peer, the
//! single transition that folds one observed message into it, and the
//! recommendation rules that turn peer records into an encryption
//! decision.

use vstd::prelude::*;
use vstd::string::StringExecFns;
use crate::errors::{HeaderParseError, PeerInfoParseError};
use crate::header::{Header, HeaderView};
use crate::mime::{ac_result_view, get_ac_header, get_effective_date, line_value, named_header_line};
use crate::strutil::str_eq;
use crate::types::{EncryptPreference, KeyType, KeyTypeView, Recommendation};

verus! {

/// The staleness window of the recommendation rules: four weeks, in
/// seconds.
pub const FOUR_WEEKS_SECS: i64 = 2419200;

/// Trust state recorded about a peer.
#[derive(Debug, Clone, Copy, PartialEq, Eq, Structural)]
pub enum PeerState {
    /// The peer prefers encryption; wire token `mutual`.
    Mutual,
    /// No stated preference; wire token `nopreference`.
    NoPreference,
    /// The peer stopped advertising; wire token `reset`.
    Reset,
    /// Known only through third-party gossip; wire token `gossip`.
    /// This core never produces it itself.
    Gossip,
}

/// The wire token that a peer state serializes to.
pub open spec fn peer_state_token(s: PeerState) -> Seq<char> {
    match s {
        PeerState::Mutual => "mutual"@,
        PeerState::NoPreference => "nopreference"@,
        PeerState::Reset => "reset"@,
        PeerState::Gossip => "gossip"@,
    }
}

impl PeerState {
    /// Renders the wire token.
    pub fn to_token(&self) -> (r: String)
        ensures
            r@ == peer_state_token(*self),
    {
        match self {
            PeerState::Mutual => String::from_str("mutual"),
            PeerState::NoPreference => String::from_str("nopreference"),
            PeerState::Reset => String::from_str("reset"),
            PeerState::Gossip => String::from_str("gossip"),
        }
    }
}

/// Mathematical image of a [`PeerInfo`]. Timestamps are seconds of the
/// Unix epoch, unbounded.
pub ghost struct PeerInfoView {
    pub last_seen: int,
    pub last_seen_autocrypt: Option<int>,
    pub public_key: Option<Seq<char>>,
    pub state: PeerState,
    pub typ: KeyTypeView,
}

/// The record kept about a single peer. Timestamps are seconds of the
/// Unix epoch.
#[derive(Debug, Clone, PartialEq, Eq)]
pub struct PeerInfo {
    /// Effective date of the most recent message processed from this
    /// peer, whether or not it carried an advertisement.
    pub last_seen: i64,
    /// Effective date of the most recent message that carried a valid
    /// advertisement, if any.
    pub last_seen_autocrypt: Option<i64>,
    /// The stored key material of this peer, if any.
    pub public_key: Option<String>,
    /// The current trust state.
    pub state: PeerState,
    /// Which protocol level this record is for; currently always OpenPGP.
    pub typ: KeyType,
}

impl View for PeerInfo {
    type V = PeerInfoView;

    open spec fn view(&self) -> PeerInfoView {
        PeerInfoView {
            last_seen: self.last_seen as int,
            last_seen_autocrypt: match self.last_seen_autocrypt {
                Some(t) => Some(t as int),
                None => None,
            },
            public_key: match &self.public_key {
                Some(k) => Some(k@),
                None => None,
            },
            state: self.state,
            typ: self.typ@,
        }
    }
}

/// View of an optional advertisement.
pub open spec fn adv_view(adv: Option<Header>) -> Option<HeaderView> {
    match adv {
        Some(h) => Some(h@),
        None => None,
    }
}

/// The view of a gated advertisement result.
pub open spec fn gated_result_view(g: &Result<Option<Header>, PeerInfoParseError>) -> Result<
    Option<HeaderView>,
    PeerInfoParseError,
> {
    match g {
        Ok(Some(h)) => Ok(Some(h@)),
        Ok(None) => Ok(None),
        Err(e) => Err(*e),
    }
}

/// How the outcome of advertisement extraction enters the update flow:
/// several advertisement headers are a protocol violation meaning
/// untrustworthy, equivalent to no advertisement at all, not a fatal
/// abort; every other failure surfaces, wrapped.
pub open spec fn advertisement_gate_spec(r: Result<Option<HeaderView>, HeaderParseError>) -> Result<
    Option<HeaderView>,
    PeerInfoParseError,
> {
    match r {
        Ok(o) => Ok(o),
        Err(HeaderParseError::TooManyHeaders) => Ok(None),
        Err(e) => Err(PeerInfoParseError::HeaderError(e)),
    }
}

/// Gates an advertisement extraction result for the update flow,
/// exactly as [`advertisement_gate_spec`] prescribes.
pub fn gate_advertisement(r: Result<Option<Header>, HeaderParseError>) -> (g: Result<
    Option<Header>,
    PeerInfoParseError,
>)
    ensures
        gated_result_view(&g) == advertisement_gate_spec(ac_result_view(&r)),
{
    match r {
        Ok(o) => Ok(o),
        Err(e) => {
            if e == HeaderParseError::TooManyHeaders {
                Ok(None)
            } else {
                Err(PeerInfoParseError::HeaderError(e))
            }
        },
    }
}

/// The single transition rule of the peer state machine, in the order the
/// protocol prescribes: a delivery report changes nothing; a message
/// older than the best advertisement already held changes nothing; a
/// message without an advertisement resets the state if its date
/// advances `last_seen`; an advertisement always refreshes the stored key
/// and `last_seen_autocrypt`, and moves state and `last_seen` only on a
/// strict date advance.
pub open spec fn update_spec(
    p: PeerInfoView,
    content_type: Seq<char>,
    eff: int,
    adv: Option<HeaderView>,
) -> PeerInfoView {
    if content_type == "multipart/report"@ {
        p
    } else if match p.last_seen_autocrypt {
        Some(t) => eff < t,
        None => false,
    } {
        p
    } else {
        match adv {
            None => {
                if eff > p.last_seen {
                    PeerInfoView { last_seen: eff, state: PeerState::Reset, ..p }
                } else {
                    p
                }
            },
            Some(h) => {
                let q = PeerInfoView {
                    public_key: Some(h.keydata),
                    last_seen_autocrypt: Some(eff),
                    ..p
                };
                if eff > p.last_seen {
                    PeerInfoView {
                        last_seen: eff,
                        state: if h.prefer_encrypt == EncryptPreference::Mutual {
                            PeerState::Mutual
                        } else {
                            PeerState::NoPreference
                        },
                        ..q
                    }
                } else {
                    q
                }
            },
        }
    }
}

/// The recommendation for a single recipient, rules in order: no known
/// key disables; mutual preference on both sides encrypts; gossip
/// discourages; a reset peer whose last advertisement is older than the
/// staleness window discourages; otherwise encryption is available.
pub open spec fn recommendation_spec(
    from: PeerInfoView,
    to: PeerInfoView,
    now: int,
) -> Recommendation {
    if to.public_key is None {
        Recommendation::Disable
    } else if from.state == PeerState::Mutual && to.state == PeerState::Mutual {
        Recommendation::Encrypt
    } else if to.state == PeerState::Gossip {
        Recommendation::Discourage
    } else if match to.last_seen_autocrypt {
        Some(t) => to.state == PeerState::Reset && t < now - FOUR_WEEKS_SECS,
        None => false,
    } {
        Recommendation::Discourage
    } else {
        Recommendation::Available
    }
}

/// How per-recipient recommendations combine for one outgoing message:
/// any `Disable` dominates, else unanimous `Encrypt` encrypts, else any
/// `Discourage` discourages, else `Available`.
pub open spec fn combined(recs: Seq<Recommendation>) -> Recommendation {
    if exists|i: int| 0 <= i < recs.len() && recs[i] == Recommendation::Disable {
        Recommendation::Disable
    } else if forall|i: int| 0 <= i < recs.len() ==> recs[i] == Recommendation::Encrypt {
        Recommendation::Encrypt
    } else if exists|i: int| 0 <= i < recs.len() && recs[i] == Recommendation::Discourage {
        Recommendation::Discourage
    } else {
        Recommendation::Available
    }
}

/// Views of a borrowed list of peers.
pub open spec fn peers_view(tos: Seq<&PeerInfo>) -> Seq<PeerInfoView> {
    Seq::new(tos.len(), |i: int| tos[i]@)
}

/// The per-recipient recommendations of a list of peers.
pub open spec fn rec_seq(from: PeerInfoView, tos: Seq<PeerInfoView>, now: int) -> Seq<
    Recommendation,
> {
    Seq::new(tos.len(), |i: int| recommendation_spec(from, tos[i], now))
}

impl PeerInfo {
    /// A fresh record for a peer first observed at `seen`; absent pieces
    /// default to nothing known and the current protocol level.
    pub fn new(
        seen: i64,
        seen_ac: Option<i64>,
        key: Option<String>,
        state: Option<PeerState>,
    ) -> (p: PeerInfo)
        ensures
            p.last_seen == seen,
            p.last_seen_autocrypt == seen_ac,
            p@.public_key == match key {
                Some(k) => Some(k@),
                None => None::<Seq<char>>,
            },
            p.state == match state {
                Some(s) => s,
                None => PeerState::NoPreference,
            },
            p@.typ == KeyTypeView::OpenPGP,
    {
        PeerInfo {
            last_seen: seen,
            last_seen_autocrypt: seen_ac,
            public_key: key,
            state: match state {
                Some(s) => s,
                None => PeerState::NoPreference,
            },
            typ: KeyType::OpenPGP,
        }
    }

    /// Folds one observed message, given as its content type, its
    /// effective date and its advertisement (if a valid one was carried),
    /// into this record, exactly by the transition rule.
    pub fn apply_message(
        &mut self,
        content_type: &str,
        effective_date: i64,
        advertisement: Option<Header>,
    )
        ensures
            final(self)@ == update_spec(
                old(self)@,
                content_type@,
                effective_date as int,
                adv_view(advertisement),
            ),
    {
        if str_eq(content_type, "multipart/report") {
            return ;
        }
        if let Some(t) = self.last_seen_autocrypt {
            if effective_date < t {
                return ;
            }
        }
        match advertisement {
            None => {
                if effective_date > self.last_seen {
                    self.last_seen = effective_date;
                    self.state = PeerState::Reset;
                }
            },
            Some(h) => {
                let advanced = effective_date > self.last_seen;
                let mutual = h.pref() == EncryptPreference::Mutual;
                self.public_key = Some(h.into_keydata());
                self.last_seen_autocrypt = Some(effective_date);
                if advanced {
                    self.last_seen = effective_date;
                    self.state = if mutual {
                        PeerState::Mutual
                    } else {
                        PeerState::NoPreference
                    };
                }
            },
        }
    }

    /// Folds one raw message into this record. A message whose content
    /// type marks it as a delivery report is ignored. An unreadable
    /// content type, or an invalid advertisement header, leaves the
    /// record unmodified and surfaces as an error; several advertisement
    /// headers on one message are a protocol violation that counts as no
    /// advertisement at all. Otherwise the transition rule
    /// [`update_spec`] is applied with the message's effective date and
    /// advertisement.
    pub fn update(&mut self, mail: &email::MimeMessage) -> (r: Result<(), PeerInfoParseError>)
        ensures
            r is Err ==> final(self)@ == old(self)@,
            r is Ok ==> exists|ct: Seq<char>, eff: int, adv: Option<HeaderView>|
                final(self)@ == update_spec(old(self)@, ct, eff, adv),
    {
        let content_type = match named_header_line(mail, "Content-Type") {
            Some(line) => match line_value(line.as_str()) {
                Some(v) => v,
                None => {
                    return Err(PeerInfoParseError::MimeError);
                },
            },
            None => {
                return Err(PeerInfoParseError::MimeError);
            },
        };
        if str_eq(content_type.as_str(), "multipart/report") {
            proof {
                assert(self@ == update_spec(old(self)@, content_type@, 0int, None::<HeaderView>));
            }
            return Ok(());
        }
        let eff = get_effective_date(mail);
        let adv = match gate_advertisement(get_ac_header(mail)) {
            Ok(a) => a,
            Err(e) => {
                return Err(e);
            },
        };
        self.apply_message(content_type.as_str(), eff, adv);
        Ok(())
    }

    /// The recommendation for sending from this peer's account to `to`,
    /// judged at the injected current time `now`.
    pub fn recommendation(&self, to: &PeerInfo, now: i64) -> (r: Recommendation)
        ensures
            r == recommendation_spec(self@, to@, now as int),
    {
        if to.public_key.is_none() {
            return Recommendation::Disable;
        }
        if self.state == PeerState::Mutual && to.state == PeerState::Mutual {
            return Recommendation::Encrypt;
        }
        if to.state == PeerState::Gossip {
            return Recommendation::Discourage;
        }
        if let Some(seen_ac) = to.last_seen_autocrypt {
            if to.state == PeerState::Reset && (seen_ac as i128) < (now as i128) - (
            FOUR_WEEKS_SECS as i128) {
                return Recommendation::Discourage;
            }
        }
        Recommendation::Available
    }

    /// The combined recommendation for sending one message to all the
    /// peers in `tos`, judged at the injected current time `now`.
    pub fn recommendation_many(&self, tos: Vec<&PeerInfo>, now: i64) -> (r: Recommendation)
        ensures
            r == combined(rec_seq(self@, peers_view(tos@), now as int)),
    {
        let ghost rs = rec_seq(self@, peers_view(tos@), now as int);
        let n = tos.len();
        let mut any_disable = false;
        let mut all_encrypt = true;
        let mut any_discourage = false;
        let mut i: usize = 0;
        while i < n
            invariant
                0 <= i <= n,
                n == tos@.len(),
                rs == rec_seq(self@, peers_view(tos@), now as int),
                any_disable == exists|j: int|
                    0 <= j < i && #[trigger] rs[j] == Recommendation::Disable,
                all_encrypt == forall|j: int|
                    0 <= j < i ==> #[trigger] rs[j] == Recommendation::Encrypt,
                any_discourage == exists|j: int|
                    0 <= j < i && #[trigger] rs[j] == Recommendation::Discourage,
            decreases n - i,
        {
            let rec = self.recommendation(tos[i], now);
            proof {
                assert(rs[i as int] == rec);
            }
            if rec == Recommendation::Disable {
                any_disable = true;
            }
            if rec != Recommendation::Encrypt {
                all_encrypt = false;
            }
            if rec == Recommendation::Discourage {
                any_discourage = true;
            }
            i = i + 1;
        }
        if any_disable {
            Recommendation::Disable
        } else if all_encrypt {
            Recommendation::Encrypt
        } else if any_discourage {
            Recommendation::Discourage
        } else {
            Recommendation::Available
        }
    }
}

/// A message strictly older than the best advertisement already held
/// never mutates any field of the record, whatever else it carries.
pub proof fn lemma_stale_message_ignored(
    p: PeerInfoView,
    content_type: Seq<char>,
    eff: int,
    adv: Option<HeaderView>,
)
    requires
        match p.last_seen_autocrypt {
            Some(t) => eff < t,
            None => false,
        },
    ensures
        update_spec(p, content_type, eff, adv) == p,
{
}

/// A header-less message whose date strictly advances `last_seen` resets
/// the state and advances `last_seen`, and touches nothing else; without
/// such an advance it changes nothing.
pub proof fn lemma_reset_on_missing(p: PeerInfoView, content_type: Seq<char>, eff: int)
    requires
        content_type != "multipart/report"@,
        match p.last_seen_autocrypt {
            Some(t) => eff >= t,
            None => true,
        },
    ensures
        eff > p.last_seen ==> update_spec(p, content_type, eff, None) == (PeerInfoView {
            last_seen: eff,
            state: PeerState::Reset,
            ..p
        }),
        eff <= p.last_seen ==> update_spec(p, content_type, eff, None) == p,
{
}

/// A valid advertisement whose date strictly advances `last_seen` sets
/// the state to `Mutual` exactly when it prefers mutual encryption and to
/// `NoPreference` otherwise, and always refreshes the stored key and
/// `last_seen_autocrypt`.
pub proof fn lemma_mutual_determination(
    p: PeerInfoView,
    content_type: Seq<char>,
    eff: int,
    h: HeaderView,
)
    requires
        content_type != "multipart/report"@,
        match p.last_seen_autocrypt {
            Some(t) => eff >= t,
            None => true,
        },
        eff > p.last_seen,
    ensures
        update_spec(p, content_type, eff, Some(h)) == (PeerInfoView {
            last_seen: eff,
            last_seen_autocrypt: Some(eff),
            public_key: Some(h.keydata),
            state: if h.prefer_encrypt == EncryptPreference::Mutual {
                PeerState::Mutual
            } else {
                PeerState::NoPreference
            },
            ..p
        }),
{
}

/// `last_seen` only ever advances: no message, whatever it carries,
/// moves it backwards.
pub proof fn lemma_last_seen_monotonic(
    p: PeerInfoView,
    content_type: Seq<char>,
    eff: int,
    adv: Option<HeaderView>,
)
    ensures
        update_spec(p, content_type, eff, adv).last_seen >= p.last_seen,
{
}

/// The deliberate asymmetry of the transition rule: an advertisement
/// whose date does not advance `last_seen` (but passes the staleness
/// guard) still refreshes the stored key and `last_seen_autocrypt`,
/// and touches nothing else.
pub proof fn lemma_key_refresh_without_advance(
    p: PeerInfoView,
    content_type: Seq<char>,
    eff: int,
    h: HeaderView,
)
    requires
        content_type != "multipart/report"@,
        match p.last_seen_autocrypt {
            Some(t) => eff >= t,
            None => true,
        },
        eff <= p.last_seen,
    ensures
        update_spec(p, content_type, eff, Some(h)) == (PeerInfoView {
            public_key: Some(h.keydata),
            last_seen_autocrypt: Some(eff),
            ..p
        }),
{
}

/// Multi-recipient precedence: one `Disable` among the results forces
/// `Disable`; unanimous `Encrypt` forces `Encrypt`; one `Discourage`
/// among results none of which is `Disable` forces `Discourage`.
pub proof fn lemma_combined_precedence(recs: Seq<Recommendation>)
    ensures
        (exists|i: int| 0 <= i < recs.len() && #[trigger] recs[i] == Recommendation::Disable)
            ==> combined(recs) == Recommendation::Disable,
        (forall|i: int| 0 <= i < recs.len() ==> #[trigger] recs[i] == Recommendation::Encrypt)
            ==> combined(recs) == Recommendation::Encrypt,
        ((forall|i: int| 0 <= i < recs.len() ==> #[trigger] recs[i] != Recommendation::Disable)
            && (exists|i: int|
            0 <= i < recs.len() && #[trigger] recs[i] == Recommendation::Discourage)) ==> combined(
            recs,
        ) == Recommendation::Discourage,
{
}

} // verus!
