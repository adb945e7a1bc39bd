# Vör Commander

A device that lets a remote client read, search and change what is on it, under
rules that its owner set down: a policy decides what runs at once, what waits for
a signed approval and what never runs; every decision goes into an audit trail
before its effect; every approval serves once.

`src/` is the library. Each rule stands there with a contract, and Verus proves
that the code keeps it.

| Modules | What they hold |
| --- | --- |
| `text`, `codec`, `crypto`, `ids`, `table`, `shown` | texts, encodings, digests and signatures, identifiers, ordered tables, values in logs |
| `protocol`, `policy` | requests, and the policy that decides on them |
| `approval`, `audit`, `broker` | signed approvals, the hash chain of the audit trail, and what ties them together |
| `grants`, `tenants`, `dashboard` | access grants, tenants and their isolation, what a dashboard may show |
| `paths`, `files`, `writes`, `search`, `edits`, `passages`, `encodings`, `gate` | the file worker |
| `git`, `desktop`, `browser`, `sessions` | the other workers |
| `identity`, `tls` | the certificates of devices and servers, and the tunnel between them |
| `maintenance`, `inspection`, `swap` | replacing the executable of the device, and taking that back |
| `dispatch`, `dispatcher`, `preparation`, `reports` | what a request asks for, what happens to it, and what is answered |

The library does no input or output of its own. Where a rule rests on the state
of the disk, the clock or the network, the function takes what was observed and
says what is to be done next. `app/` is the code around it: it observes, does what
it is told, and stores the results.

What the proofs take on trust is marked `external_body` or `assume_specification`
in `crypto`, `codec`, `encodings`, `search`, `git`, `desktop`, `identity`, `tls`,
`shown` and `text`; the comment above each says which function of which crate it speaks of,
and what it claims.
