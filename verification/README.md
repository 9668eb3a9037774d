# ghost

Records long audio sessions, takes their transcripts into a database and shows
them for translation.

- `src/` is the library, verified with Verus.
  - `parse`, `names`, `number`, `text`: transcripts, file names, numbers and text.
  - `recorder`, `wav`: what the server does with audio that comes in over a socket.
  - `client`: what the console recorder does.
  - `model`, `database`, `store`, `rows`, `detail`: the data, the statements on
    the tables, and what their rows stand for.
  - `repository`, `service`, `handler`: the operations on the database as
    conversations, ingestion, and what the HTTP endpoints answer.
  - `scan`, `transcripts`: which files of a directory are taken in, and the list
    of recordings.
  - `tables`, `runs`, `transactions`, `ingestion`: a model of the database, and
    laws about the operations on it.
- `tests/` runs the library, with a database in memory where one is needed.
- `app/` is the program around it: the server, the ingest tool
  (`ghost ingest --db ./transcripts.db --input ./recordings`) and the console
  recorder (`ghost recorder --server wss://192.168.1.10:3005`). The server needs
  `cert.pem` and `key.pem` in its working directory.
