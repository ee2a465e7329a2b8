# solo_project

The data side of the wheel-inspection ("Ascan") service, verified with Verus.

- `src/` — the library: the production lines and their answers
  (`data_base::data_base_ascan::ascan_db`), the answer types
  (`structures::ascan_struct`), the choice made on a wheel request
  (`infra::askan::ascan`), image lookup by date (`utils::utils_metod`), and
  the text handling they rest on (`utils::text`, `utils::ordered`).
- `app/` — the HTTP server: environment, database connections, time limits,
  parallel reading of the lines, JSON; it hands the library plain values.
- `tests/` — tests of the library on concrete values.
