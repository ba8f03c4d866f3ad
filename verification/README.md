# krb5_kdc

The logic of a Kerberos key distribution centre and of its GSS-API mechanism,
with its behaviour stated in contracts and proved by Verus.

- `src/issue/`: judging AS and TGS requests, and putting their replies together
- `src/ad.rs`, `src/ad/`, `src/pac.rs`, `src/pac/`: PAC signatures, delegation and
  requests on behalf of others
- `src/plugins.rs`, `src/slots.rs`: pre-authentication, policy and audit modules
- `src/kdb.rs`, `src/store.rs`, `src/realm.rs`: the principal database
- `src/kdb_dump.rs`, `src/kdb_dump/`, `src/persist/`, `src/osa.rs`: its forms on disk
- `src/acl.rs`, `src/acl/`: who may administer it
- `src/listen.rs`, `src/lookaside.rs`: datagrams, streams and retransmits
- `src/audit.rs`, `src/audit/`: log lines and audit records
- `src/gss/`: contexts, tokens, negotiation and their formats
- `src/outside.rs`: the calls into other crates, with what is believed of them
- `app/`: sockets, files, signals and logging around the library

Encryption and the encoding of messages are not part of the library. Its
functions take what decrypting, verifying or decoding gave as plain values, or
are handed the functions that do it, and say what follows from each outcome.
Times are seconds since 1970; the present time is an argument.

Each law that relates several functions is a public proof function whose name
begins with `law_`.
