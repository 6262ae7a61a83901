# lila-openingexplorer

An opening explorer for chess games: for every position, how often each move
was played, how the games ended, and which games they were — for master
games, for rated games of lichess.org, and for the games of one player.

The library in `src/` is written in Verus. It holds the binary formats of
the stored records (packed statistics, game references, headers, keys), the
merge of records, the preparation of answers under filters and limits, the
history of a position month by month, the import of games, the player
indexing decisions, the queue of players to index, PGN header handling and
request metrics. Each public function states what it does in `requires` /
`ensures`, and the laws that relate several functions (what a read gives
back of a write, the order of keys, the tickets of the queue, the text forms
of dates) are proof functions.

Chess itself (positions, moves, hashes) comes from the `shakmaty` crate, SHA-1
from `sha1`, number parsing in PGN headers from `btoi` and random sampling
from `fastrand`; each call goes through a small trusted function whose
contract is stated next to it.

`app/` is the HTTP server around the library: argument handling, RocksDB
storage, JSON, the requests to the game server, and the indexing workers.

`tests/` holds the tests of the library.
