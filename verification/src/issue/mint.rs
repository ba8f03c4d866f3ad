//! Minting a ticket: what is signed and encrypted under a key comes in as
//! functions.

use crate::ad::{has_ticket_signature, should_have_ticket_signature};
use crate::error::Error;
use crate::issue::tgs_req::TicketTimes;
use crate::issue::times::{omit_start_if_auth, spec_omit_start};
use crate::msg::{
    AuthDatum, EncTicketPart, EncryptedData, EncryptionKey, HostAddress, Ticket,
    TransitedEncoding,
};
use crate::name::PrincipalName;
use crate::store::Principal;
use vstd::prelude::*;

verus! {

/// Ticket version.
pub const TKT_VNO: i32 = 5;

/// Key usage of a ticket.
pub const KU_TICKET: u32 = 2;

/// What a new ticket is to hold, and the keys that it is made with.
pub struct MintTerms<'a> {
    /// Key of the server, which the ticket is under.
    pub service_key: EncryptionKey,
    /// Key of the PAC's KDC signatures.
    pub kdc_key: EncryptionKey,
    /// The local ticket-granting service.
    pub krbtgt: &'a Principal,
    /// Its key.
    pub krbtgt_key: EncryptionKey,
    /// Authentication indicators.
    pub indicators: Vec<String>,
    /// Session key.
    pub session: EncryptionKey,
    /// Realm of the server.
    pub srealm: String,
    /// Server.
    pub sname: PrincipalName,
    /// Client realm.
    pub crealm: String,
    /// Client.
    pub cname: PrincipalName,
    /// Times and flags.
    pub times: TicketTimes,
    /// Transited realms.
    pub transited: TransitedEncoding,
    /// Addresses.
    pub caddr: Option<Vec<HostAddress>>,
    /// Authorization data beside the PAC.
    pub extra: Vec<AuthDatum>,
    /// Type of the server's key.
    pub service_etype: i32,
    /// Version of the server's key.
    pub kvno: u32,
    /// The server goes without authorization data.
    pub no_auth_data: bool,
    /// The ticket gets a PAC.
    pub include_pac: bool,
}

/// What signs the PAC of a ticket.
pub trait PacSigner {
    /// It can be asked to sign.
    spec fn ready(&self) -> bool;

    /// It gives `r` for the PAC of a ticket that has a blank one, which is a
    /// service ticket or not, under the keys of the server and of the KDC.
    spec fn signs(
        &self,
        server: EncryptionKey,
        kdc: EncryptionKey,
        part: EncTicketPart,
        service: bool,
        r: Result<Vec<u8>, Error>,
    ) -> bool;

    /// Signs the PAC of a ticket that has a blank one, under the keys of the
    /// server and of the KDC.
    fn sign(
        &self,
        server: &EncryptionKey,
        kdc: &EncryptionKey,
        part: &EncTicketPart,
        service: bool,
    ) -> (r: Result<Vec<u8>, Error>)
        requires
            self.ready(),
        ensures
            self.signs(*server, *kdc, *part, service, r),
    ;
}

impl<
    F: Fn(&EncryptionKey, &EncryptionKey, &EncTicketPart, bool) -> Result<Vec<u8>, Error>,
> PacSigner for F {
    open spec fn ready(&self) -> bool {
        forall|a: EncryptionKey, b: EncryptionKey, x: EncTicketPart, t: bool| #[trigger]
            call_requires(*self, (&a, &b, &x, t))
    }

    open spec fn signs(
        &self,
        server: EncryptionKey,
        kdc: EncryptionKey,
        part: EncTicketPart,
        service: bool,
        r: Result<Vec<u8>, Error>,
    ) -> bool {
        call_ensures(*self, (&server, &kdc, &part, service), r)
    }

    fn sign(
        &self,
        server: &EncryptionKey,
        kdc: &EncryptionKey,
        part: &EncTicketPart,
        service: bool,
    ) -> (r: Result<Vec<u8>, Error>) {
        self(server, kdc, part, service)
    }
}

/// The contents of an optional list.
pub open spec fn data_of(v: Option<Vec<AuthDatum>>) -> Option<Seq<AuthDatum>> {
    match v {
        Some(d) => Some(d@),
        None => None,
    }
}

/// `x` is the encrypted part of the ticket, with this authorization data.
pub open spec fn is_part(x: EncTicketPart, t: MintTerms, ad: Option<Seq<AuthDatum>>) -> bool {
    &&& x.flags == t.times.flags
    &&& x.key == t.session
    &&& x.crealm == t.crealm
    &&& x.cname == t.cname
    &&& x.transited == t.transited
    &&& x.authtime == t.times.authtime
    &&& x.starttime == spec_omit_start(t.times.starttime, t.times.authtime)
    &&& x.endtime == t.times.endtime
    &&& x.renew_till == t.times.renew_till
    &&& x.caddr == t.caddr
    &&& data_of(x.authorization_data) == ad
}

/// `k` is the ticket around an encrypted part. Key version 0 is not written.
pub open spec fn is_ticket(k: Ticket, t: MintTerms, cipher: Seq<u8>) -> bool {
    &&& k.tkt_vno == TKT_VNO
    &&& k.realm == t.srealm
    &&& k.sname == t.sname
    &&& k.enc_part.etype == t.service_etype
    &&& k.enc_part.kvno == (if t.kvno == 0 {
        None
    } else {
        Some(t.kvno)
    })
    &&& k.enc_part.cipher@ == cipher
}

/// `wrap` gave `w` for a PAC with these octets.
pub open spec fn wrapped_pac<W: Fn(&Vec<u8>) -> Result<Vec<AuthDatum>, Error>>(
    wrap: W,
    pac: Seq<u8>,
    w: Result<Vec<AuthDatum>, Error>,
) -> bool {
    exists|x: Vec<u8>| x@ == pac && #[trigger] call_ensures(wrap, (&x,), w)
}

/// `sign` gave `p` for the PAC of a ticket with this authorization data.
pub open spec fn signed_pac<P: PacSigner>(
    sign: P,
    t: MintTerms,
    ad: Seq<AuthDatum>,
    p: Result<Vec<u8>, Error>,
) -> bool {
    exists|x: EncTicketPart|
        is_part(x, t, Some(ad)) && #[trigger] sign.signs(
            t.service_key,
            t.kdc_key,
            x,
            has_ticket_signature(t.sname@),
            p,
        )
}

/// `seal` gave `c` for the encrypted part with this authorization data.
pub open spec fn sealed_part<E: Fn(&EncryptionKey, u32, &EncTicketPart) -> Result<Vec<u8>, Error>>(
    seal: E,
    t: MintTerms,
    ad: Option<Seq<AuthDatum>>,
    c: Result<Vec<u8>, Error>,
) -> bool {
    exists|x: EncTicketPart| is_part(x, t, ad) && #[trigger] call_ensures(
            seal,
            (&t.service_key, KU_TICKET, &x),
            c,
        )
}

/// `indicate` gave `v` for the authorization data with the indicators in it.
pub open spec fn with_indicators<
    A: Fn(
        Vec<AuthDatum>,
        &Vec<String>,
        &EncryptionKey,
        &Principal,
        &EncryptionKey,
        &EncTicketPart,
    ) -> Result<Vec<AuthDatum>, Error>,
>(indicate: A, t: MintTerms, v: Result<Vec<AuthDatum>, Error>) -> bool {
    exists|x: EncTicketPart|
        is_part(x, t, None) && #[trigger] call_ensures(
            indicate,
            (t.extra, &t.indicators, &t.service_key, t.krbtgt, &t.krbtgt_key, &x),
            v,
        )
}

/// What minting comes to once the authorization data are known.
pub open spec fn sealed_result<E: Fn(&EncryptionKey, u32, &EncTicketPart) -> Result<Vec<u8>, Error>>(
    seal: E,
    t: MintTerms,
    ad: Option<Seq<AuthDatum>>,
    r: Result<Ticket, Error>,
) -> bool {
    exists|c: Result<Vec<u8>, Error>| #[trigger]
        sealed_part(seal, t, ad, c) && (match c {
            Err(e) => r matches Err(x) && x == e,
            Ok(cipher) => r matches Ok(k) && is_ticket(k, t, cipher@),
        })
}

/// What minting comes to once the signed PAC is there: it stands in front of
/// the other authorization data.
pub open spec fn signed_result<
    W: Fn(&Vec<u8>) -> Result<Vec<AuthDatum>, Error>,
    E: Fn(&EncryptionKey, u32, &EncTicketPart) -> Result<Vec<u8>, Error>,
>(
    wrap: W,
    seal: E,
    t: MintTerms,
    extra: Seq<AuthDatum>,
    pac: Seq<u8>,
    r: Result<Ticket, Error>,
) -> bool {
    exists|w: Result<Vec<AuthDatum>, Error>| #[trigger]
        wrapped_pac(wrap, pac, w) && (match w {
            Err(e) => r matches Err(x) && x == e,
            Ok(v) => sealed_result(seal, t, Some(v@ + extra), r),
        })
}

/// What minting a ticket with a PAC comes to: the PAC is signed over the ticket
/// with a PAC of one zero octet in its place.
pub open spec fn pac_result<
    W: Fn(&Vec<u8>) -> Result<Vec<AuthDatum>, Error>,
    P: PacSigner,
    E: Fn(&EncryptionKey, u32, &EncTicketPart) -> Result<Vec<u8>, Error>,
>(
    wrap: W,
    sign: P,
    seal: E,
    t: MintTerms,
    extra: Seq<AuthDatum>,
    r: Result<Ticket, Error>,
) -> bool {
    exists|h: Result<Vec<AuthDatum>, Error>| #[trigger]
        wrapped_pac(wrap, seq![0u8], h) && (match h {
            Err(e) => r matches Err(x) && x == e,
            Ok(v) => exists|p: Result<Vec<u8>, Error>| #[trigger]
                signed_pac(sign, t, v@ + extra, p) && (match p {
                    Err(e) => r matches Err(x) && x == e,
                    Ok(pac) => signed_result(wrap, seal, t, extra, pac@, r),
                }),
        })
}

/// What minting comes to, given the authorization data beside the PAC.
pub open spec fn extra_result<
    W: Fn(&Vec<u8>) -> Result<Vec<AuthDatum>, Error>,
    P: PacSigner,
    E: Fn(&EncryptionKey, u32, &EncTicketPart) -> Result<Vec<u8>, Error>,
>(
    wrap: W,
    sign: P,
    seal: E,
    t: MintTerms,
    extra: Seq<AuthDatum>,
    r: Result<Ticket, Error>,
) -> bool {
    if t.include_pac {
        pac_result(wrap, sign, seal, t, extra, r)
    } else {
        sealed_result(
            seal,
            t,
            if extra.len() == 0 {
                None
            } else {
                Some(extra)
            },
            r,
        )
    }
}

/// What minting a ticket comes to: indicators are added where the server takes
/// authorization data, then the PAC, then the whole is encrypted.
pub open spec fn mint_result<
    A: Fn(
        Vec<AuthDatum>,
        &Vec<String>,
        &EncryptionKey,
        &Principal,
        &EncryptionKey,
        &EncTicketPart,
    ) -> Result<Vec<AuthDatum>, Error>,
    W: Fn(&Vec<u8>) -> Result<Vec<AuthDatum>, Error>,
    P: PacSigner,
    E: Fn(&EncryptionKey, u32, &EncTicketPart) -> Result<Vec<u8>, Error>,
>(indicate: A, wrap: W, sign: P, seal: E, t: MintTerms, r: Result<Ticket, Error>) -> bool {
    if t.no_auth_data {
        extra_result(wrap, sign, seal, t, t.extra@, r)
    } else {
        exists|v: Result<Vec<AuthDatum>, Error>| #[trigger]
            with_indicators(indicate, t, v) && (match v {
                Err(e) => r matches Err(x) && x == e,
                Ok(extra) => extra_result(wrap, sign, seal, t, extra@, r),
            })
    }
}

/// Signs the PAC over the ticket and puts it in front of the other
/// authorization data.
fn add_pac<
    W: Fn(&Vec<u8>) -> Result<Vec<AuthDatum>, Error>,
    P: PacSigner,
>(
    part: &mut EncTicketPart,
    extra: Vec<AuthDatum>,
    service_key: &EncryptionKey,
    kdc_key: &EncryptionKey,
    service: bool,
    wrap: &W,
    sign: &P,
    Ghost(t): Ghost<MintTerms>,
) -> (r: Result<(), Error>)
    requires
        is_part(*old(part), t, None),
        *service_key == t.service_key,
        *kdc_key == t.kdc_key,
        service == has_ticket_signature(t.sname@),
        forall|x: Vec<u8>| #[trigger] call_requires(*wrap, (&x,)),
        sign.ready(),
    ensures
        exists|h: Result<Vec<AuthDatum>, Error>| #[trigger]
            wrapped_pac(*wrap, seq![0u8], h) && (match h {
                Err(e) => r == Err::<(), Error>(e),
                Ok(v) => exists|p: Result<Vec<u8>, Error>| #[trigger]
                    signed_pac(*sign, t, v@ + extra@, p) && (match p {
                        Err(e) => r == Err::<(), Error>(e),
                        Ok(pac) => exists|w: Result<Vec<AuthDatum>, Error>| #[trigger]
                            wrapped_pac(*wrap, pac@, w) && (match w {
                                Err(e) => r == Err::<(), Error>(e),
                                Ok(s) => r is Ok && is_part(*final(part), t, Some(s@ + extra@)),
                            }),
                    }),
            }),
{
    let mut zero: Vec<u8> = Vec::new();
    zero.push(0);
    let h = wrap(&zero);
    proof {
        assert(zero@ =~= seq![0u8]);
        assert(wrapped_pac(*wrap, seq![0u8], h));
    }
    let mut all = match h {
        Err(e) => {
            return Err(e);
        },
        Ok(v) => v,
    };
    let ghost front = all@;
    let n: usize = all.len();
    let mut rest = extra;
    all.append(&mut rest);
    part.authorization_data = Some(all);
    let p = sign.sign(service_key, kdc_key, &*part, service);
    proof {
        assert(is_part(*part, t, Some(front + extra@)));
        assert(signed_pac(*sign, t, front + extra@, p));
    }
    let pac = match p {
        Err(e) => {
            return Err(e);
        },
        Ok(b) => b,
    };
    let w = wrap(&pac);
    proof {
        assert(wrapped_pac(*wrap, pac@, w));
    }
    let mut signed = match w {
        Err(e) => {
            return Err(e);
        },
        Ok(v) => v,
    };
    let ghost head = signed@;
    match part.authorization_data.take() {
        Some(mut both) => {
            let mut tail = both.split_off(n);
            proof {
                assert(tail@ =~= extra@);
            }
            signed.append(&mut tail);
        },
        None => {},
    }
    part.authorization_data = Some(signed);
    proof {
        assert(is_part(*part, t, Some(head + extra@)));
    }
    Ok(())
}

/// Encrypts the part and makes the ticket.
fn seal_ticket<E: Fn(&EncryptionKey, u32, &EncTicketPart) -> Result<Vec<u8>, Error>>(
    part: &EncTicketPart,
    srealm: String,
    sname: PrincipalName,
    service_etype: i32,
    kvno: u32,
    service_key: &EncryptionKey,
    seal: &E,
    Ghost(t): Ghost<MintTerms>,
) -> (r: Result<Ticket, Error>)
    requires
        is_part(*part, t, data_of(part.authorization_data)),
        srealm == t.srealm,
        sname == t.sname,
        service_etype == t.service_etype,
        kvno == t.kvno,
        *service_key == t.service_key,
        forall|k: EncryptionKey, u: u32, x: EncTicketPart| #[trigger]
            call_requires(*seal, (&k, u, &x)),
    ensures
        sealed_result(*seal, t, data_of(part.authorization_data), r),
{
    let c = seal(service_key, KU_TICKET, part);
    proof {
        assert(sealed_part(*seal, t, data_of(part.authorization_data), c));
    }
    match c {
        Err(e) => Err(e),
        Ok(cipher) => Ok(
            Ticket {
                tkt_vno: TKT_VNO,
                realm: srealm,
                sname,
                enc_part: EncryptedData {
                    etype: service_etype,
                    kvno: if kvno == 0 {
                        None
                    } else {
                        Some(kvno)
                    },
                    cipher,
                },
            },
        ),
    }
}

/// Mints a ticket. `indicate` adds the authentication indicators, `sign` signs the
/// PAC, `wrap` makes authorization data of a PAC, and `seal` encrypts.
pub fn mint_ticket<
    A: Fn(
        Vec<AuthDatum>,
        &Vec<String>,
        &EncryptionKey,
        &Principal,
        &EncryptionKey,
        &EncTicketPart,
    ) -> Result<Vec<AuthDatum>, Error>,
    W: Fn(&Vec<u8>) -> Result<Vec<AuthDatum>, Error>,
    P: PacSigner,
    E: Fn(&EncryptionKey, u32, &EncTicketPart) -> Result<Vec<u8>, Error>,
>(t: MintTerms, indicate: &A, wrap: &W, sign: &P, seal: &E) -> (r: Result<Ticket, Error>)
    requires
        forall|
            v: Vec<AuthDatum>,
            i: Vec<String>,
            k: EncryptionKey,
            p: Principal,
            g: EncryptionKey,
            x: EncTicketPart,
        | #[trigger]
            call_requires(*indicate, (v, &i, &k, &p, &g, &x)),
        forall|x: Vec<u8>| #[trigger] call_requires(*wrap, (&x,)),
        sign.ready(),
        forall|k: EncryptionKey, u: u32, x: EncTicketPart| #[trigger]
            call_requires(*seal, (&k, u, &x)),
    ensures
        mint_result(*indicate, *wrap, *sign, *seal, t, r),
{
    let MintTerms {
        service_key,
        kdc_key,
        krbtgt,
        krbtgt_key,
        indicators,
        session,
        srealm,
        sname,
        crealm,
        cname,
        times,
        transited,
        caddr,
        extra,
        service_etype,
        kvno,
        no_auth_data,
        include_pac,
    } = t;
    let mut part = EncTicketPart {
        flags: times.flags,
        key: session,
        crealm,
        cname,
        transited,
        authtime: times.authtime,
        starttime: omit_start_if_auth(times.starttime, times.authtime),
        endtime: times.endtime,
        renew_till: times.renew_till,
        caddr,
        authorization_data: None,
    };
    let rest: Vec<AuthDatum> = if no_auth_data {
        extra
    } else {
        let v = indicate(extra, &indicators, &service_key, krbtgt, &krbtgt_key, &part);
        proof {
            assert(is_part(part, t, None));
            assert(with_indicators(*indicate, t, v));
        }
        match v {
            Err(e) => {
                return Err(e);
            },
            Ok(x) => x,
        }
    };
    let ghost all = rest@;
    if include_pac {
        let service: bool = should_have_ticket_signature(&sname);
        match add_pac(&mut part, rest, &service_key, &kdc_key, service, wrap, sign, Ghost(t)) {
            Err(e) => {
                return Err(e);
            },
            Ok(()) => {},
        }
    } else if rest.len() > 0 {
        part.authorization_data = Some(rest);
    }
    seal_ticket(&part, srealm, sname, service_etype, kvno, &service_key, seal, Ghost(t))
}

/// A ticket minted with a start other than 0 reads back with that start.
pub proof fn law_start_is_kept(x: EncTicketPart, t: MintTerms, ad: Option<Seq<AuthDatum>>)
    requires
        is_part(x, t, ad),
        t.times.starttime != 0,
    ensures
        x.start() == t.times.starttime,
{
}

/// A ticket holds what it is to hold, is for its server under the type of that
/// key, and tells that key's version unless it is 0.
pub proof fn law_ticket_holds_its_terms(
    x: EncTicketPart,
    k: Ticket,
    t: MintTerms,
    ad: Option<Seq<AuthDatum>>,
    cipher: Seq<u8>,
)
    requires
        is_part(x, t, ad),
        is_ticket(k, t, cipher),
    ensures
        x.flags == t.times.flags,
        x.key == t.session,
        x.cname@ == t.cname@ && x.crealm@ == t.crealm@,
        x.authtime == t.times.authtime,
        x.endtime == t.times.endtime,
        x.renew_till == t.times.renew_till,
        x.transited == t.transited,
        x.caddr == t.caddr,
        k.tkt_vno == 5,
        k.sname@ == t.sname@ && k.realm@ == t.srealm@,
        k.enc_part.etype == t.service_etype,
        t.kvno != 0 ==> k.enc_part.kvno == Some(t.kvno),
        t.kvno == 0 ==> k.enc_part.kvno is None,
        k.enc_part.cipher@ == cipher,
{
}

/// A ticket without a PAC is minted wherever it can be sealed: its part goes under
/// the server's key with usage 2, with the other authorization data and nothing
/// else.
pub proof fn law_plain_ticket_is_sealed<
    W: Fn(&Vec<u8>) -> Result<Vec<AuthDatum>, Error>,
    P: PacSigner,
    E: Fn(&EncryptionKey, u32, &EncTicketPart) -> Result<Vec<u8>, Error>,
>(
    wrap: W,
    sign: P,
    seal: E,
    t: MintTerms,
    extra: Seq<AuthDatum>,
    r: Result<Ticket, Error>,
)
    requires
        !t.include_pac,
        extra_result(wrap, sign, seal, t, extra, r),
    ensures
        r matches Ok(k) ==> exists|x: EncTicketPart, c: Vec<u8>|
            {
                &&& #[trigger] call_ensures(
                    seal,
                    (&t.service_key, 2u32, &x),
                    Ok::<Vec<u8>, Error>(c),
                )
                &&& k.enc_part.cipher@ == c@
                &&& x.key == t.session
                &&& x.flags == t.times.flags
                &&& extra.len() == 0 ==> x.authorization_data is None
                &&& extra.len() > 0 ==> (x.authorization_data matches Some(d) && d@ == extra)
            },
        (forall|x: EncTicketPart, c: Result<Vec<u8>, Error>| #[trigger]
            call_ensures(seal, (&t.service_key, 2u32, &x), c) ==> c is Ok) ==> r is Ok,
{
    let ad = if extra.len() == 0 {
        None
    } else {
        Some(extra)
    };
    let c = choose|c: Result<Vec<u8>, Error>| #[trigger]
        sealed_part(seal, t, ad, c) && (match c {
            Err(e) => r matches Err(x) && x == e,
            Ok(cipher) => r matches Ok(k) && is_ticket(k, t, cipher@),
        });
    let x = choose|x: EncTicketPart| is_part(x, t, ad) && #[trigger] call_ensures(
        seal,
        (&t.service_key, KU_TICKET, &x),
        c,
    );
    if let Ok(k) = r {
        assert(call_ensures(
            seal,
            (&t.service_key, 2u32, &x),
            Ok::<Vec<u8>, Error>(c->Ok_0),
        ));
    }
}

/// A server that takes no authorization data gets the ticket without indicators:
/// nothing is asked for then, and the ticket is made of what was given.
pub proof fn law_no_indicators_where_none_are_taken<
    A: Fn(
        Vec<AuthDatum>,
        &Vec<String>,
        &EncryptionKey,
        &Principal,
        &EncryptionKey,
        &EncTicketPart,
    ) -> Result<Vec<AuthDatum>, Error>,
    W: Fn(&Vec<u8>) -> Result<Vec<AuthDatum>, Error>,
    P: PacSigner,
    E: Fn(&EncryptionKey, u32, &EncTicketPart) -> Result<Vec<u8>, Error>,
>(indicate: A, wrap: W, sign: P, seal: E, t: MintTerms, r: Result<Ticket, Error>)
    requires
        mint_result(indicate, wrap, sign, seal, t, r),
    ensures
        t.no_auth_data ==> extra_result(wrap, sign, seal, t, t.extra@, r),
        !t.no_auth_data ==> exists|v: Result<Vec<AuthDatum>, Error>| #[trigger]
            with_indicators(indicate, t, v) && (v is Err ==> r is Err) && (v is Ok ==> extra_result(
                wrap,
                sign,
                seal,
                t,
                v->Ok_0@,
                r,
            )),
{
}

} // verus!
