# x509_path

Certification path construction for X.509: given a leaf certificate, a pool of
untrusted intermediates, a set of trust anchors and a policy, find a chain from
the leaf to an anchor. The library is written in Rust and verified with Verus.

## Layout

- `src/builder.rs`: the search for a chain, and `verify`
- `src/name_chain.rs`: the names of a chain, and the name constraints on them
- `src/types.rs`: DNS names, IP addresses, and the subtrees of both
- `src/hosts.rs`: mail addresses, URIs, directory names, and the subtrees of each
- `src/policy.rs`, `src/ops.rs`: the policy, and what its user supplies
- `src/trust_store.rs`: the trust anchors
- `src/certificate.rs`, `src/der.rs`: certificates as the search reads them
- `src/budget.rs`, `src/error.rs`, `src/text.rs`: limits, errors, messages
- `src/laws/`: what holds of the library as a whole: names, issuers, searches,
  errors, decided policies, work
- `app/`: reads DER-encoded certificates into the library's types
- `tests/`: tests

## What a contract says

The profile of a policy and the cryptography come from the user, and nothing is
promised of them. The contract of the search is therefore a relation:
`ChainBuilder::search_outcome` holds of an end of the search exactly if some
answers of the user's code lead to it. Where these answers are always the same,
so is the end (`laws::decided::law_verify_unique`). Every chain that is found is
valid (`laws::search::law_verified_chain`). A search that fails has missed no
valid chain if the answers are always the same, if the extensions of every
certificate to choose from can be read, if the error is not fatal, and if
signature checks are left (`laws::decided::law_failure_justified`).

Behind every result of `verify` stands a run of the search (`laws::work`), and
the work of such a run is bounded whatever the certificates and the answers
(`laws::work::law_verify_work`). No clause bounds what the code calls beyond
such a run: calls that change neither the result nor the budget show in no
contract.

Names are held to the name constraints of their form by the rules of RFC 5280,
section 4.2.1.10: DNS names, IP addresses, mail addresses, URIs and directory
names. Names of the remaining forms match if their encodings are equal. A URI
without a host name lies in no subtree but that of its own text.

What is believed without proof is one call, `asn1::parse_single` on an octet
string, in `src/der.rs`.
