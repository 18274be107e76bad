# desk

The trading desk of an exchange: order entry, balances, margin risk, funding,
persistence planning and the client protocols, as a library whose every item is
verified with Verus.

- `src/` is the library. Each module states its data as mathematical values
  (`View` types, `Map`, `Seq`, `int`) and its functions as exact contracts over
  them. Properties that span several functions are public proof functions whose
  names begin with `law_`.
- `app/` is the program around it: HTTP and WebSocket handlers, SQL, Redis,
  timers, settings, and everything that is written as a floating-point number.
  It tests the conditions that the library's functions require before it calls
  them.
- `tests/` runs the library on concrete values, with the outside crates linked.

## Where things stand

| Area | Modules |
| --- | --- |
| Amounts, grids, text | `money`, `decimal`, `symbol_rules`, `text`, `text_map` |
| Balances and ledgers | `account`, `account_repository`, `order_entry` |
| Orders from entry to settlement | `order`, `order_state`, `api`, `order_flow`, `ws_handler` |
| Margin risk | `risk::{calc, types, position, engine, exposure}`, `risk_persist`, `trigger` |
| Prices and funding | `index_price`, `funding` |
| Stores | `persist_event`, `pg_store`, `redis_store`, `reconcile`, `db`, `leader` |
| Protocols | `ws_message`, `ws_sbe`, `read_actor`, `metrics` |
| Users and limits | `user_service`, `rate_limit`, `counter_shard`, `exchange_config` |

Calls into outside crates (`dashmap`, `hmac`, `sha2`, `jsonwebtoken`, `bcrypt`,
`chrono`, `serde_json`) stand behind small functions marked
`#[verifier::external_body]` in `maps`, `user_service`, `persist_event` and
`ws_message`; the comment above each says what is believed of the call. Two more
in `trigger` ask the standard ordered map for its lowest and highest key.
