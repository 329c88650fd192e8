# okina_bot_kotoba_web

The rank logic of a Discord bot that promotes members who pass rank
quizzes of the Kotoba quiz bot, verified with Verus.

- `src/` is the verified library:
  - `json.rs`: JSON values (parsed by `serde_json`) and their accessors;
  - `text.rs`: decimal numbers, joining, substring search, reading a `u64`;
  - `commands/env_variables.rs`: loading the configuration lists and
    building the rank-command and rank-quiz tables;
  - `commands/levelup.rs`: a member's rank, the next quiz command, the
    predicates of a game report and its quiz key;
  - `commands/reports.rs`: the decisions taken when a game ends (which
    report to fetch, the verdict, the promotion and its announcement);
  - `commands/metadata.rs`: the `%niveis`, `%tabela` and ping answers;
  - `utils.rs`: `Pipe`.
- `app/` is the bot itself: configuration file, Discord and HTTP calls.
- `tests/` runs the library on concrete values.
