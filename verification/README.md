# yerd-proxy

The deciding half of a local development reverse proxy, verified with Verus.

A request is routed by its host to a site. A site serves its files, and runs its PHP
through FastCGI in the manner of nginx's `try_files $uri $uri/ /index.php`. Hosts and path
prefixes can also go to another server, and on `localhost` a visitor can pick a site and
stay with it.

- `src/` is the library: every decision, with its contract and its proof. It takes plain
  values and gives plain values back.
- `app/` is the event loop around it: sockets, TLS, hyper and the file system.
- `tests/` runs the library.

Where a decision needs the outside world in between, the library has a state machine: a
step takes what happened and returns what to do next. `php::PhpState` decides a request
for a PHP site, `exchange::Exchange` turns FastCGI records into a response, and
`script_file::resolve_script` asks the file system question by question. What whole runs
of these machines come to is stated and proved next to them, in the functions whose names
begin with `law_`.
