# sheet-music-browsarr

A server that searches several catalogs of sheet music at once, and delivers
what it finds as PDFs: IMSLP, the Mutopia Project, MuseScore and Ultimate
Guitar.

`src/` is a library whose functions state what they do in Verus contracts,
which Verus proves:

- `text`, `json`, `html`, `codec`, `clock`: texts, documents, encodings and
  instants, with the calls into other crates that they rest on;
- `sources`: the catalogs. What a request asks for, how a fetch behind
  Cloudflare goes on, what a page or an answer holds, how a download is put
  together, how healthy a source is;
- `i18n`: queries in the scripts of the alias dictionary;
- `cache`: the keys, the ages and the plan of the two-tier search cache;
- `email`: whom mail is from and for;
- `secrets`, `settings`, `auth`, `rate_limit`, `turnstile`, `audit`,
  `config`: what is stored sealed, who may enter, how often, and from where;
- `routes`: the administrator's pages.

`app/` is the program around it: sockets, HTTP clients, the database, the
in-process cache, mail, and the writing of PDFs.

`tests/` runs the library on concrete values.
