# xnetify

A parental web filter whose core is verified with Verus.

- `src/` is the verified library: the filter model (modes, time rules, URL
  rules, blocked categories) and the engine that decides on requests; the
  parsers and answer builders of the local DNS server, the block page
  server, the HTTP and SOCKS5 proxies and the transparent tunnel (IPv4, TCP,
  UDP, DNS, TLS server names, checksums, the connection table and its
  decisions); the address translation table; and the text behind the proxy
  commands, shell profiles, system proxy settings and privilege requests.
  Every function carries a contract; the laws that tie functions together
  are proof functions named `lemma_*`.
- `app/` is the program around it: loading and saving settings, the network
  services, the tunnel device, and running the operating system's tools.
- `tests/` runs the library on concrete values.
