# icalendar_txt

Verified parsers for two plain-text formats:

- calendar files (`icalendar.txt`): one entry per line, an ISO 8601 interval
  (`2020-01-01T20:00/22:00`, `R/2020-01-01/F2D`, `2020-01-01/PT2H20M`, ...)
  followed by a description;
- task lists in the todo.txt style: completion mark, priority, dates and a
  description.

Descriptions carry `+project` and `@context` tags and `key:value` properties.

Layout of `src/`:

- `scan.rs`: character classes, primitive recognizers, and how parser outcomes
  are reported (`ParseErr`, leftover input);
- `dates.rs`: dates, times and the calendar arithmetic delegated to `chrono`;
- `iso8601.rs`: dates, times, periods and intervals, and writing periods back;
- `parser.rs`: descriptions and their metadata;
- `calendar.rs`, `todo.rs`: calendar files and task files;
- `lines.rs`: what the parsers of a calendar entry read (the rest of the
  line, and for an interval the text up to the next white space), which the
  law on joining calendar files rests on;
- `entry.rs`: the entry types and their methods;
- `error.rs`, `error_info.rs`: errors, messages and error positions;
- `todo_txt.rs`: the first task-list format;
- `xtask.rs`: the commands of the build helper.

`app/` holds the build helper's command line, the Godot extension and the C
interface.
