# rade

A rule engine for events. A rule is a condition written in a small
expression language (`name == 'alice' && count > 18`, regex matches such
as `name =~ /hello/i`, functions, methods such as `content.contains('x')` or
`process_name.to_lowercase()`, list lookups, `&&`, `||`, `!`); an event is a
map of typed fields. The engine evaluates rules against events, either rule
by rule or through a table of shared predicates compiled once from all
rules, and rule sets can be framed into a checksummed binary form.

The library under `src/` is written in Verus and every function in it is
verified against its contract:

- `lexer`, `parser`: the condition language, with a spec grammar and a
  parser proved to agree with it.
- `semantics`: what a condition means on an event, as spec functions.
- `cached`: what evaluation through a result cache keyed by condition hash
  computes, for any hashes.
- `evaluate`: the evaluator, proved to compute what `cached` says, and so the
  meaning of `semantics` whenever no two different nested conditions share a
  hash (the cache cannot tell such conditions apart).
- `engine`: matching events against rules, both ways, proved to give the
  same pairs under the same condition on hashes.
- `methods`: the methods of strings, numbers and lists.
- `debug_form`: values written as error messages show them.
- `rule_set`: the binary frame (magic, SHA-256 checksum, payload) and its
  round trip.
- `text`, `fat_string`, `float`, `val`, `pattern`, `functions`, `event`,
  `rule`: the values the language works on.

Decimal numbers are held as exact fixed-point values: an `i128` count of
10^-18 units, so magnitudes up to about 1.7 * 10^20 with at most 18
fractional digits. A decimal outside that range, or with more digits, cannot
be held; the command-line tool stops on such a value in an event file.
Integers compared with decimals are first rounded as `i64 as f64` rounds them.

Calls into `regex`, `sha2`, `hex`, `hashbrown` and `uuid` sit behind small
trusted wrappers whose contracts are stated next to them.

`app/` is the command-line tool (reading YAML rules and events, writing rule
sets); `tests/` holds the test suite.
