# xades

XAdES signatures for ASiC-E containers, verified with Verus.

The library writes signature documents, extends them with a time-stamp and revocation data (levels
T and LT), and validates them against trust anchors. What each function returns is stated in its
contract and proved; calls into other crates stand behind small functions whose contracts say what
is relied on.

- `src/sig`: signature documents (`template`), their extension (`lt`), and what they read as when
  they are parsed again (`elements`, `readback`)
- `src/validate`: validation; `xades` checks the qualifying properties, `ltv` time-stamps and OCSP
  responses, and `laws` states what holds of every validation
- `src/crypto`: digests, keys in memory and what they are loaded from (`container`, `bundle`,
  `ber`), keys on PKCS#11 tokens
- `src/chain`, `src/x509`: trust anchors, chains, certificates
- `src/xml`: writing documents, documents as lists of nodes, and documents as nested elements
  (`markup`)
- `src/codec`, `src/text`, `src/time`: base64, DER framing, reference URIs, texts, points in time
- `app`: time-stamping and OCSP services, issuer discovery, and tokens

Validation takes a `CoreVerifier`, which verifies the XML signature itself: references, signature
value, and the data files that are covered.
