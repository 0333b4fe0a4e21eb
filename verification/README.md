# fhc

Checks which hosts answer over HTTP(S) and what they answer.

- `src/` is the library, verified with Verus: the status filter of a run
  (`structs`), the order in which a host is tried, the cap on a body, what is
  read out of an answer, what a run prints and how a host is fingerprinted
  for missing pages (`httplib`), the built-in user agents and the hosts read
  from input (`utils`), and the text handling they rest on (`text`).
- `app/` is the command line program around it: it sends the requests,
  receives the bodies and writes the output.
- `tests/` runs the library on concrete values.
